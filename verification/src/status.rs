//! Extraction of candidate addresses from a status document.
//!
//! Three document shapes are tried in order until one yields at least one
//! address: the `Peer` roster, the local `Self` record, and finally a
//! recursive walk over the whole document. The result is deduplicated in
//! insertion order.

use vstd::prelude::*;

use crate::address::{
    all_valid, extract_ip_from_string, is_space, is_valid_candidate, lemma_all_valid_concat,
    normalize_spec,
};
use crate::errors::DiscoveryError;
use crate::json::{json_of, parse_json, JsonValue};

verus! {

// ---------------------------------------------------------------------------
// Specification: what each shape yields
// ---------------------------------------------------------------------------

/// What one array element contributes: only strings are considered.
pub open spec fn str_item_ips(v: JsonValue) -> Seq<Seq<char>> {
    match v {
        JsonValue::Str(s) => match normalize_spec(s@) {
            Some(ip) => seq![ip],
            None => seq![],
        },
        _ => seq![],
    }
}

pub open spec fn arr_str_ips(items: Seq<JsonValue>) -> Seq<Seq<char>>
    decreases items.len(),
{
    if items.len() == 0 {
        seq![]
    } else {
        str_item_ips(items[0]) + arr_str_ips(items.drop_first())
    }
}

/// What one field value contributes: a single string, or an array of
/// strings, each run through normalization.
pub open spec fn field_ips(v: JsonValue) -> Seq<Seq<char>> {
    match v {
        JsonValue::Str(_) => str_item_ips(v),
        JsonValue::Arr(items) => arr_str_ips(items@),
        _ => seq![],
    }
}

/// First entry with the given key, if any.
pub open spec fn obj_get_spec(entries: Seq<(String, JsonValue)>, name: Seq<char>) -> Option<
    JsonValue,
>
    decreases entries.len(),
{
    if entries.len() == 0 {
        None
    } else if entries[0].0@ == name {
        Some(entries[0].1)
    } else {
        obj_get_spec(entries.drop_first(), name)
    }
}

/// What the named field of a record contributes; nothing if the record is
/// not an object or lacks the field.
pub open spec fn getf(rec: JsonValue, name: Seq<char>) -> Seq<Seq<char>> {
    match rec {
        JsonValue::Obj(entries) => match obj_get_spec(entries@, name) {
            Some(v) => field_ips(v),
            None => seq![],
        },
        _ => seq![],
    }
}

/// What one peer record yields, over the fields inspected for peers, in
/// order.
pub open spec fn peer_record_ips(rec: JsonValue) -> Seq<Seq<char>> {
    getf(rec, "TailscaleIPs"@) + getf(rec, "Addrs"@) + getf(rec, "Endpoints"@) + getf(
        rec,
        "PrimaryRoutes"@,
    )
}

/// What the local device record yields, over its inspected fields.
pub open spec fn self_record_ips(rec: JsonValue) -> Seq<Seq<char>> {
    getf(rec, "TailscaleIPs"@) + getf(rec, "Addrs"@) + getf(rec, "Endpoints"@)
}

pub open spec fn peers_ips(entries: Seq<(String, JsonValue)>) -> Seq<Seq<char>>
    decreases entries.len(),
{
    if entries.len() == 0 {
        seq![]
    } else {
        peer_record_ips(entries[0].1) + peers_ips(entries.drop_first())
    }
}

/// Shape one: every record of the `Peer` object, in roster order.
pub open spec fn peer_shape_ips(doc: JsonValue) -> Seq<Seq<char>> {
    match doc {
        JsonValue::Obj(entries) => match obj_get_spec(entries@, "Peer"@) {
            Some(JsonValue::Obj(peers)) => peers_ips(peers@),
            _ => seq![],
        },
        _ => seq![],
    }
}

/// Shape two: the `Self` record.
pub open spec fn self_shape_ips(doc: JsonValue) -> Seq<Seq<char>> {
    match doc {
        JsonValue::Obj(entries) => match obj_get_spec(entries@, "Self"@) {
            Some(rec) => self_record_ips(rec),
            None => seq![],
        },
        _ => seq![],
    }
}

/// Shape three: every string anywhere in the document, in traversal order.
pub open spec fn rec_ips(v: JsonValue) -> Seq<Seq<char>>
    decreases v,
{
    match v {
        JsonValue::Str(_) => str_item_ips(v),
        JsonValue::Arr(items) => rec_ips_list(items@),
        JsonValue::Obj(entries) => rec_ips_entries(entries@),
        _ => seq![],
    }
}

pub open spec fn rec_ips_list(items: Seq<JsonValue>) -> Seq<Seq<char>>
    decreases items,
{
    if items.len() == 0 {
        seq![]
    } else {
        rec_ips(items[0]) + rec_ips_list(items.drop_first())
    }
}

pub open spec fn rec_ips_entries(entries: Seq<(String, JsonValue)>) -> Seq<Seq<char>>
    decreases entries,
{
    if entries.len() == 0 {
        seq![]
    } else {
        rec_ips(entries[0].1) + rec_ips_entries(entries.drop_first())
    }
}

/// First occurrence kept, later duplicates dropped.
pub open spec fn dedup(s: Seq<Seq<char>>) -> Seq<Seq<char>>
    decreases s.len(),
{
    if s.len() == 0 {
        seq![]
    } else {
        let front = dedup(s.drop_last());
        if front.contains(s.last()) {
            front
        } else {
            front.push(s.last())
        }
    }
}

/// What extraction returns: the first shape that yields at least one
/// address wins, and the result is deduplicated in insertion order.
pub open spec fn extract_spec(doc: JsonValue) -> Seq<Seq<char>> {
    if peer_shape_ips(doc).len() > 0 {
        dedup(peer_shape_ips(doc))
    } else if self_shape_ips(doc).len() > 0 {
        dedup(self_shape_ips(doc))
    } else {
        dedup(rec_ips(doc))
    }
}

// ---------------------------------------------------------------------------
// Every extracted address is a valid candidate
// ---------------------------------------------------------------------------

proof fn lemma_str_item_valid(v: JsonValue)
    ensures
        all_valid(str_item_ips(v)),
{
}

proof fn lemma_arr_valid(items: Seq<JsonValue>)
    ensures
        all_valid(arr_str_ips(items)),
    decreases items.len(),
{
    if items.len() > 0 {
        lemma_str_item_valid(items[0]);
        lemma_arr_valid(items.drop_first());
        lemma_all_valid_concat(str_item_ips(items[0]), arr_str_ips(items.drop_first()));
    }
}

proof fn lemma_field_valid(v: JsonValue)
    ensures
        all_valid(field_ips(v)),
{
    match v {
        JsonValue::Arr(items) => lemma_arr_valid(items@),
        _ => lemma_str_item_valid(v),
    }
}

proof fn lemma_getf_valid(rec: JsonValue, name: Seq<char>)
    ensures
        all_valid(getf(rec, name)),
{
    match rec {
        JsonValue::Obj(entries) => {
            match obj_get_spec(entries@, name) {
                Some(v) => lemma_field_valid(v),
                None => {},
            }
        },
        _ => {},
    }
}

proof fn lemma_peer_record_valid(rec: JsonValue)
    ensures
        all_valid(peer_record_ips(rec)),
{
    lemma_getf_valid(rec, "TailscaleIPs"@);
    lemma_getf_valid(rec, "Addrs"@);
    lemma_getf_valid(rec, "Endpoints"@);
    lemma_getf_valid(rec, "PrimaryRoutes"@);
    lemma_all_valid_concat(getf(rec, "TailscaleIPs"@), getf(rec, "Addrs"@));
    lemma_all_valid_concat(
        getf(rec, "TailscaleIPs"@) + getf(rec, "Addrs"@),
        getf(rec, "Endpoints"@),
    );
    lemma_all_valid_concat(
        getf(rec, "TailscaleIPs"@) + getf(rec, "Addrs"@) + getf(rec, "Endpoints"@),
        getf(rec, "PrimaryRoutes"@),
    );
}

proof fn lemma_self_record_valid(rec: JsonValue)
    ensures
        all_valid(self_record_ips(rec)),
{
    lemma_getf_valid(rec, "TailscaleIPs"@);
    lemma_getf_valid(rec, "Addrs"@);
    lemma_getf_valid(rec, "Endpoints"@);
    lemma_all_valid_concat(getf(rec, "TailscaleIPs"@), getf(rec, "Addrs"@));
    lemma_all_valid_concat(
        getf(rec, "TailscaleIPs"@) + getf(rec, "Addrs"@),
        getf(rec, "Endpoints"@),
    );
}

proof fn lemma_peers_valid(entries: Seq<(String, JsonValue)>)
    ensures
        all_valid(peers_ips(entries)),
    decreases entries.len(),
{
    if entries.len() > 0 {
        lemma_peer_record_valid(entries[0].1);
        lemma_peers_valid(entries.drop_first());
        lemma_all_valid_concat(peer_record_ips(entries[0].1), peers_ips(entries.drop_first()));
    }
}

proof fn lemma_rec_ips_valid(v: JsonValue)
    ensures
        all_valid(rec_ips(v)),
    decreases v,
{
    match v {
        JsonValue::Arr(items) => {
            assert(decreases_to!(v => v->Arr_0));
            lemma_rec_ips_list_valid(items@);
        },
        JsonValue::Obj(entries) => {
            assert(decreases_to!(v => v->Obj_0));
            lemma_rec_ips_entries_valid(entries@);
        },
        _ => lemma_str_item_valid(v),
    }
}

proof fn lemma_rec_ips_list_valid(items: Seq<JsonValue>)
    ensures
        all_valid(rec_ips_list(items)),
    decreases items,
{
    if items.len() > 0 {
        lemma_rec_ips_valid(items[0]);
        lemma_rec_ips_list_valid(items.drop_first());
        lemma_all_valid_concat(rec_ips(items[0]), rec_ips_list(items.drop_first()));
    }
}

proof fn lemma_rec_ips_entries_valid(entries: Seq<(String, JsonValue)>)
    ensures
        all_valid(rec_ips_entries(entries)),
    decreases entries,
{
    if entries.len() > 0 {
        lemma_rec_ips_valid(entries[0].1);
        lemma_rec_ips_entries_valid(entries.drop_first());
        lemma_all_valid_concat(rec_ips(entries[0].1), rec_ips_entries(entries.drop_first()));
    }
}

proof fn lemma_dedup_valid(s: Seq<Seq<char>>)
    requires
        all_valid(s),
    ensures
        all_valid(dedup(s)),
    decreases s.len(),
{
    if s.len() > 0 {
        assert(all_valid(s.drop_last()));
        lemma_dedup_valid(s.drop_last());
        let front = dedup(s.drop_last());
        if !front.contains(s.last()) {
            assert forall|i: int| 0 <= i < front.push(s.last()).len() implies is_valid_candidate(
                #[trigger] front.push(s.last())[i],
            ) by {
                if i < front.len() {
                    assert(front.push(s.last())[i] == front[i]);
                }
            }
        }
    }
}

/// Every address extraction returns is a valid candidate: a dotted-decimal
/// address of the mesh's reserved block, carrying no CIDR or port suffix —
/// whichever document shape yielded it.
pub proof fn lemma_extract_spec_valid(doc: JsonValue)
    ensures
        all_valid(extract_spec(doc)),
{
    match doc {
        JsonValue::Obj(entries) => {
            match obj_get_spec(entries@, "Peer"@) {
                Some(JsonValue::Obj(peers)) => lemma_peers_valid(peers@),
                _ => {},
            }
            match obj_get_spec(entries@, "Self"@) {
                Some(rec) => lemma_self_record_valid(rec),
                None => {},
            }
        },
        _ => {},
    }
    lemma_rec_ips_valid(doc);
    lemma_dedup_valid(peer_shape_ips(doc));
    lemma_dedup_valid(self_shape_ips(doc));
    lemma_dedup_valid(rec_ips(doc));
}

// ---------------------------------------------------------------------------
// Executable extraction
// ---------------------------------------------------------------------------

/// Character-for-character string equality.
pub fn str_eq(a: &str, b: &str) -> (r: bool)
    ensures
        r == (a@ == b@),
{
    let na = a.unicode_len();
    let nb = b.unicode_len();
    if na != nb {
        return false;
    }
    let mut i: usize = 0;
    while i < na
        invariant
            0 <= i <= na,
            na == a@.len(),
            nb == b@.len(),
            na == nb,
            forall|k: int| 0 <= k < i ==> a@[k] == b@[k],
        decreases na - i,
    {
        if a.get_char(i) != b.get_char(i) {
            proof {
                assert(a@[i as int] != b@[i as int]);
            }
            return false;
        }
        i += 1;
    }
    proof {
        assert(a@ =~= b@);
    }
    true
}

/// Appends all of `src` to `dst`, keeping order.
pub(crate) fn append_all(dst: &mut Vec<String>, src: Vec<String>)
    ensures
        final(dst).deep_view() == old(dst).deep_view() + src.deep_view(),
{
    let ghost pre_dst = dst.deep_view();
    let ghost pre_src = src.deep_view();
    let mut src = src;
    dst.append(&mut src);
    proof {
        assert(dst.deep_view() =~~= pre_dst + pre_src);
    }
}

proof fn lemma_arr_str_ips_step(items: Seq<JsonValue>, i: int)
    requires
        0 <= i < items.len(),
    ensures
        arr_str_ips(items.skip(i)) == str_item_ips(items[i]) + arr_str_ips(items.skip(i + 1)),
{
    assert(items.skip(i)[0] == items[i]);
    assert(items.skip(i).drop_first() =~= items.skip(i + 1));
}

fn field_ips_exec(v: &JsonValue) -> (r: Vec<String>)
    ensures
        r.deep_view() == field_ips(*v),
{
    match v {
        JsonValue::Str(s) => {
            let mut out: Vec<String> = Vec::new();
            match extract_ip_from_string(s.as_str()) {
                Some(ip) => {
                    out.push(ip);
                },
                None => {},
            }
            proof {
                assert(out.deep_view() =~~= field_ips(*v));
            }
            out
        },
        JsonValue::Arr(items) => {
            let mut out: Vec<String> = Vec::new();
            let ghost all = items@;
            proof {
                assert(all.skip(0) =~= all);
            }
            let mut i: usize = 0;
            while i < items.len()
                invariant
                    all == items@,
                    0 <= i <= all.len(),
                    arr_str_ips(all) == out.deep_view() + arr_str_ips(all.skip(i as int)),
                decreases all.len() - i,
            {
                let ghost pre = out.deep_view();
                match &items[i] {
                    JsonValue::Str(s) => {
                        match extract_ip_from_string(s.as_str()) {
                            Some(ip) => {
                                out.push(ip);
                            },
                            None => {},
                        }
                    },
                    _ => {},
                }
                proof {
                    lemma_arr_str_ips_step(all, i as int);
                    assert(out.deep_view() =~~= pre + str_item_ips(all[i as int]));
                    assert(arr_str_ips(all) == out.deep_view() + arr_str_ips(
                        all.skip(i as int + 1),
                    ));
                }
                i += 1;
            }
            proof {
                assert(arr_str_ips(all.skip(all.len() as int)) =~~= Seq::<Seq<char>>::empty());
                assert(out.deep_view() =~~= arr_str_ips(all));
            }
            out
        },
        _ => {
            let out: Vec<String> = Vec::new();
            proof {
                assert(out.deep_view() =~~= field_ips(*v));
            }
            out
        },
    }
}

proof fn lemma_obj_get_step(entries: Seq<(String, JsonValue)>, name: Seq<char>, i: int)
    requires
        0 <= i < entries.len(),
        entries[i].0@ != name,
    ensures
        obj_get_spec(entries.skip(i), name) == obj_get_spec(entries.skip(i + 1), name),
{
    assert(entries.skip(i)[0] == entries[i]);
    assert(entries.skip(i).drop_first() =~= entries.skip(i + 1));
}

/// First entry of an object with the given key.
fn obj_get<'a>(entries: &'a Vec<(String, JsonValue)>, name: &str) -> (r: Option<&'a JsonValue>)
    ensures
        match r {
            Some(v) => obj_get_spec(entries@, name@) == Some(*v),
            None => obj_get_spec(entries@, name@) is None,
        },
{
    proof {
        assert(entries@.skip(0) =~= entries@);
    }
    let mut i: usize = 0;
    while i < entries.len()
        invariant
            0 <= i <= entries@.len(),
            obj_get_spec(entries@, name@) == obj_get_spec(entries@.skip(i as int), name@),
        decreases entries@.len() - i,
    {
        proof {
            assert(entries@.skip(i as int)[0] == entries@[i as int]);
        }
        if str_eq(entries[i].0.as_str(), name) {
            return Some(&entries[i].1);
        }
        proof {
            lemma_obj_get_step(entries@, name@, i as int);
        }
        i += 1;
    }
    None
}

fn getf_exec(rec: &JsonValue, name: &str) -> (r: Vec<String>)
    ensures
        r.deep_view() == getf(*rec, name@),
{
    match rec {
        JsonValue::Obj(entries) => {
            match obj_get(entries, name) {
                Some(v) => field_ips_exec(v),
                None => {
                    let out: Vec<String> = Vec::new();
                    proof {
                        assert(out.deep_view() =~~= getf(*rec, name@));
                    }
                    out
                },
            }
        },
        _ => {
            let out: Vec<String> = Vec::new();
            proof {
                assert(out.deep_view() =~~= getf(*rec, name@));
            }
            out
        },
    }
}

fn peer_record_ips_exec(rec: &JsonValue) -> (r: Vec<String>)
    ensures
        r.deep_view() == peer_record_ips(*rec),
{
    let mut out = getf_exec(rec, "TailscaleIPs");
    append_all(&mut out, getf_exec(rec, "Addrs"));
    append_all(&mut out, getf_exec(rec, "Endpoints"));
    append_all(&mut out, getf_exec(rec, "PrimaryRoutes"));
    proof {
        assert(out.deep_view() =~~= peer_record_ips(*rec));
    }
    out
}

fn self_record_ips_exec(rec: &JsonValue) -> (r: Vec<String>)
    ensures
        r.deep_view() == self_record_ips(*rec),
{
    let mut out = getf_exec(rec, "TailscaleIPs");
    append_all(&mut out, getf_exec(rec, "Addrs"));
    append_all(&mut out, getf_exec(rec, "Endpoints"));
    proof {
        assert(out.deep_view() =~~= self_record_ips(*rec));
    }
    out
}

proof fn lemma_peers_ips_step(entries: Seq<(String, JsonValue)>, i: int)
    requires
        0 <= i < entries.len(),
    ensures
        peers_ips(entries.skip(i)) == peer_record_ips(entries[i].1) + peers_ips(
            entries.skip(i + 1),
        ),
{
    assert(entries.skip(i)[0] == entries[i]);
    assert(entries.skip(i).drop_first() =~= entries.skip(i + 1));
}

fn peer_shape_exec(doc: &JsonValue) -> (r: Vec<String>)
    ensures
        r.deep_view() == peer_shape_ips(*doc),
{
    match doc {
        JsonValue::Obj(entries) => {
            match obj_get(entries, "Peer") {
                Some(peer_obj) => match peer_obj {
                    JsonValue::Obj(peers) => {
                        let mut out: Vec<String> = Vec::new();
                        let ghost all = peers@;
                        proof {
                            assert(all.skip(0) =~= all);
                        }
                        let mut i: usize = 0;
                        while i < peers.len()
                            invariant
                                all == peers@,
                                0 <= i <= all.len(),
                                peers_ips(all) == out.deep_view() + peers_ips(
                                    all.skip(i as int),
                                ),
                            decreases all.len() - i,
                        {
                            let rec = peer_record_ips_exec(&peers[i].1);
                            append_all(&mut out, rec);
                            proof {
                                lemma_peers_ips_step(all, i as int);
                            }
                            i += 1;
                        }
                        proof {
                            assert(peers_ips(all.skip(all.len() as int)) =~~= Seq::<
                                Seq<char>,
                            >::empty());
                            assert(out.deep_view() =~~= peers_ips(all));
                        }
                        out
                    },
                    _ => {
                        let out: Vec<String> = Vec::new();
                        proof {
                            assert(out.deep_view() =~~= peer_shape_ips(*doc));
                        }
                        out
                    },
                },
                None => {
                    let out: Vec<String> = Vec::new();
                    proof {
                        assert(out.deep_view() =~~= peer_shape_ips(*doc));
                    }
                    out
                },
            }
        },
        _ => {
            let out: Vec<String> = Vec::new();
            proof {
                assert(out.deep_view() =~~= peer_shape_ips(*doc));
            }
            out
        },
    }
}

fn self_shape_exec(doc: &JsonValue) -> (r: Vec<String>)
    ensures
        r.deep_view() == self_shape_ips(*doc),
{
    match doc {
        JsonValue::Obj(entries) => {
            match obj_get(entries, "Self") {
                Some(rec) => self_record_ips_exec(rec),
                None => {
                    let out: Vec<String> = Vec::new();
                    proof {
                        assert(out.deep_view() =~~= self_shape_ips(*doc));
                    }
                    out
                },
            }
        },
        _ => {
            let out: Vec<String> = Vec::new();
            proof {
                assert(out.deep_view() =~~= self_shape_ips(*doc));
            }
            out
        },
    }
}

proof fn lemma_rec_ips_list_step(items: Seq<JsonValue>, i: int)
    requires
        0 <= i < items.len(),
    ensures
        rec_ips_list(items.skip(i)) == rec_ips(items[i]) + rec_ips_list(items.skip(i + 1)),
{
    assert(items.skip(i)[0] == items[i]);
    assert(items.skip(i).drop_first() =~= items.skip(i + 1));
}

proof fn lemma_rec_ips_entries_step(entries: Seq<(String, JsonValue)>, i: int)
    requires
        0 <= i < entries.len(),
    ensures
        rec_ips_entries(entries.skip(i)) == rec_ips(entries[i].1) + rec_ips_entries(
            entries.skip(i + 1),
        ),
{
    assert(entries.skip(i)[0] == entries[i]);
    assert(entries.skip(i).drop_first() =~= entries.skip(i + 1));
}

fn rec_ips_exec(v: &JsonValue) -> (r: Vec<String>)
    ensures
        r.deep_view() == rec_ips(*v),
    decreases *v,
{
    match v {
        JsonValue::Str(s) => {
            let mut out: Vec<String> = Vec::new();
            match extract_ip_from_string(s.as_str()) {
                Some(ip) => {
                    out.push(ip);
                },
                None => {},
            }
            proof {
                assert(out.deep_view() =~~= rec_ips(*v));
            }
            out
        },
        JsonValue::Arr(items) => {
            let mut out: Vec<String> = Vec::new();
            let ghost all = items@;
            proof {
                assert(all.skip(0) =~= all);
            }
            let mut i: usize = 0;
            while i < items.len()
                invariant
                    all == items@,
                    0 <= i <= all.len(),
                    rec_ips_list(all) == out.deep_view() + rec_ips_list(all.skip(i as int)),
                    *v == JsonValue::Arr(*items),
                decreases all.len() - i,
            {
                proof {
                    assert(decreases_to!(*v => (*v)->Arr_0));
                    assert((*v)->Arr_0 == *items);
                    assert(decreases_to!(*items => all));
                    assert(decreases_to!(all => all[i as int]));
                    assert(decreases_to!(*v => all[i as int]));
                }
                let sub = rec_ips_exec(&items[i]);
                append_all(&mut out, sub);
                proof {
                    lemma_rec_ips_list_step(all, i as int);
                }
                i += 1;
            }
            proof {
                assert(rec_ips_list(all.skip(all.len() as int)) =~~= Seq::<Seq<char>>::empty());
                assert(out.deep_view() =~~= rec_ips_list(all));
            }
            out
        },
        JsonValue::Obj(entries) => {
            let mut out: Vec<String> = Vec::new();
            let ghost all = entries@;
            proof {
                assert(all.skip(0) =~= all);
            }
            let mut i: usize = 0;
            while i < entries.len()
                invariant
                    all == entries@,
                    0 <= i <= all.len(),
                    rec_ips_entries(all) == out.deep_view() + rec_ips_entries(
                        all.skip(i as int),
                    ),
                    *v == JsonValue::Obj(*entries),
                decreases all.len() - i,
            {
                proof {
                    assert(decreases_to!(*v => (*v)->Obj_0));
                    assert((*v)->Obj_0 == *entries);
                    assert(decreases_to!(*entries => all));
                    assert(decreases_to!(all => all[i as int]));
                    assert(decreases_to!(all[i as int] => all[i as int].1));
                    assert(decreases_to!(*v => all[i as int].1));
                }
                let sub = rec_ips_exec(&entries[i].1);
                append_all(&mut out, sub);
                proof {
                    lemma_rec_ips_entries_step(all, i as int);
                }
                i += 1;
            }
            proof {
                assert(rec_ips_entries(all.skip(all.len() as int)) =~~= Seq::<
                    Seq<char>,
                >::empty());
                assert(out.deep_view() =~~= rec_ips_entries(all));
            }
            out
        },
        _ => {
            let out: Vec<String> = Vec::new();
            proof {
                assert(out.deep_view() =~~= rec_ips(*v));
            }
            out
        },
    }
}

fn contains_str(v: &Vec<String>, s: &String) -> (r: bool)
    ensures
        r == v.deep_view().contains(s@),
{
    let mut i: usize = 0;
    while i < v.len()
        invariant
            0 <= i <= v@.len(),
            forall|k: int| 0 <= k < i ==> v.deep_view()[k] != s@,
        decreases v@.len() - i,
    {
        if str_eq(v[i].as_str(), s.as_str()) {
            proof {
                assert(v.deep_view()[i as int] == s@);
            }
            return true;
        }
        i += 1;
    }
    proof {
        if v.deep_view().contains(s@) {
            let j = choose|j: int| 0 <= j < v.deep_view().len() && v.deep_view()[j] == s@;
            assert(v.deep_view()[j] != s@);
        }
    }
    false
}

/// Drops later duplicates, keeping the first occurrence of each address.
fn dedup_exec(src: Vec<String>) -> (r: Vec<String>)
    ensures
        r.deep_view() == dedup(src.deep_view()),
{
    let ghost all = src.deep_view();
    let mut out: Vec<String> = Vec::new();
    let mut i: usize = 0;
    proof {
        assert(all.take(0) =~~= Seq::<Seq<char>>::empty());
        assert(out.deep_view() =~~= dedup(all.take(0)));
    }
    while i < src.len()
        invariant
            all == src.deep_view(),
            src@.len() == all.len(),
            0 <= i <= all.len(),
            out.deep_view() == dedup(all.take(i as int)),
        decreases all.len() - i,
    {
        let ghost pre = out.deep_view();
        proof {
            assert(all.take(i as int + 1).drop_last() =~~= all.take(i as int));
            assert(all.take(i as int + 1).last() == all[i as int]);
            assert(all[i as int] == src@[i as int]@);
        }
        if !contains_str(&out, &src[i]) {
            let item = src[i].clone();
            out.push(item);
            proof {
                assert(out.deep_view() =~~= pre.push(all[i as int]));
            }
        }
        i += 1;
    }
    proof {
        assert(all.take(all.len() as int) =~~= all);
    }
    out
}

/// Extracts the deduplicated candidate addresses of a document: the `Peer`
/// roster first; the `Self` record if the roster yields nothing; a walk of
/// the whole document if both yield nothing.
pub fn extract(doc: &JsonValue) -> (r: Vec<String>)
    ensures
        r.deep_view() == extract_spec(*doc),
        all_valid(r.deep_view()),
{
    proof {
        lemma_extract_spec_valid(*doc);
    }
    let peers = peer_shape_exec(doc);
    if peers.len() > 0 {
        return dedup_exec(peers);
    }
    let selfs = self_shape_exec(doc);
    if selfs.len() > 0 {
        return dedup_exec(selfs);
    }
    let walk = rec_ips_exec(doc);
    dedup_exec(walk)
}

// ---------------------------------------------------------------------------
// From raw text to candidates
// ---------------------------------------------------------------------------

pub open spec fn ws_trim_front(s: Seq<char>) -> Seq<char>
    decreases s.len(),
{
    if s.len() == 0 {
        s
    } else if is_space(s[0]) {
        ws_trim_front(s.drop_first())
    } else {
        s
    }
}

pub open spec fn ws_trim_back(s: Seq<char>) -> Seq<char>
    decreases s.len(),
{
    if s.len() == 0 {
        s
    } else if is_space(s.last()) {
        ws_trim_back(s.drop_last())
    } else {
        s
    }
}

/// The text with surrounding whitespace removed.
pub open spec fn trimmed(s: Seq<char>) -> Seq<char> {
    ws_trim_back(ws_trim_front(s))
}

/// Whether the raw output can be a document at all: non-empty after
/// trimming, and starting with a JSON start token.
pub open spec fn is_json_candidate(s: Seq<char>) -> bool {
    trimmed(s).len() > 0 && (trimmed(s)[0] == '{' || trimmed(s)[0] == '[')
}

fn ws_trim_front_exec(s: &str) -> (r: String)
    ensures
        r@ == ws_trim_front(s@),
    decreases s@.len(),
{
    let n = s.unicode_len();
    if n == 0 {
        return s.to_owned();
    }
    let c = s.get_char(0);
    if c == ' ' || c == '\t' || c == '\n' || c == '\r' || c == '\u{0B}' || c == '\u{0C}' {
        let rest = s.substring_char(1, n);
        proof {
            assert(rest@ =~= s@.drop_first());
        }
        ws_trim_front_exec(rest)
    } else {
        s.to_owned()
    }
}

fn ws_trim_back_exec(s: &str) -> (r: String)
    ensures
        r@ == ws_trim_back(s@),
    decreases s@.len(),
{
    let n = s.unicode_len();
    if n == 0 {
        return s.to_owned();
    }
    let c = s.get_char(n - 1);
    if c == ' ' || c == '\t' || c == '\n' || c == '\r' || c == '\u{0B}' || c == '\u{0C}' {
        let rest = s.substring_char(0, n - 1);
        proof {
            assert(rest@ =~= s@.drop_last());
        }
        ws_trim_back_exec(rest)
    } else {
        s.to_owned()
    }
}

/// Tests raw output for a document start without parsing it.
pub fn is_json_candidate_exec(s: &str) -> (r: bool)
    ensures
        r == is_json_candidate(s@),
{
    let t1 = ws_trim_front_exec(s);
    let t = ws_trim_back_exec(t1.as_str());
    let n = t.as_str().unicode_len();
    if n == 0 {
        return false;
    }
    let c0 = t.as_str().get_char(0);
    c0 == '{' || c0 == '['
}

/// What parsing a raw status text must return.
pub open spec fn parse_status_spec(text: Seq<char>) -> Result<Seq<Seq<char>>, DiscoveryError> {
    if !is_json_candidate(text) {
        Err(DiscoveryError::MalformedStatus)
    } else {
        match json_of(trimmed(text)) {
            None => Err(DiscoveryError::MalformedStatus),
            Some(doc) => Ok(extract_spec(doc)),
        }
    }
}

/// A candidate list result, seen abstractly.
pub open spec fn cand_result_view(r: Result<Vec<String>, DiscoveryError>) -> Result<
    Seq<Seq<char>>,
    DiscoveryError,
> {
    match r {
        Ok(v) => Ok(v.deep_view()),
        Err(e) => Err(e),
    }
}

/// Turns raw control-plane output into candidate addresses: rejects empty
/// or non-document text as malformed, parses the rest, and extracts.
/// Parsing successfully but finding no addresses is not an error.
pub fn parse_status(text: &str) -> (r: Result<Vec<String>, DiscoveryError>)
    ensures
        cand_result_view(r) == parse_status_spec(text@),
        r matches Ok(v) ==> all_valid(v.deep_view()),
{
    let t1 = ws_trim_front_exec(text);
    let t = ws_trim_back_exec(t1.as_str());
    let n = t.as_str().unicode_len();
    if n == 0 {
        return Err(DiscoveryError::MalformedStatus);
    }
    let c0 = t.as_str().get_char(0);
    if !(c0 == '{' || c0 == '[') {
        return Err(DiscoveryError::MalformedStatus);
    }
    match parse_json(t.as_str()) {
        None => Err(DiscoveryError::MalformedStatus),
        Some(doc) => Ok(extract(&doc)),
    }
}

} // verus!
