//! Heuristic candidate synthesis when the control CLI is unavailable.
//!
//! Phase A probes a fixed, small grid of likely addresses — six common
//! second octets of the mesh block crossed with nine common host numbers —
//! and keeps those that accepted a raw connection, in scan order. Phase B,
//! tried only when Phase A found nothing, takes the local machine's own
//! mesh address and synthesizes its ten nearest neighbours. The caller
//! performs the connection attempts and the interface listing; this module
//! decides what to try and what the result is.

use vstd::prelude::*;

use crate::address::{
    all_valid, format_ip, ip_str, lemma_all_valid_concat, lemma_canonical_quad, line_octets,
    line_octets_spec,
};
use crate::errors::DiscoveryError;
use crate::status::append_all;

verus! {

/// The second octets Phase A scans, in order.
pub open spec fn phase_a_bases() -> Seq<u8> {
    seq![64u8, 65u8, 66u8, 67u8, 68u8, 69u8]
}

/// The host numbers Phase A scans under each base, in order.
pub open spec fn phase_a_hosts() -> Seq<u8> {
    seq![1u8, 2u8, 3u8, 4u8, 5u8, 10u8, 20u8, 50u8, 100u8]
}

pub open spec fn targets_for_base(b: u8, hosts: Seq<u8>) -> Seq<Seq<char>>
    decreases hosts.len(),
{
    if hosts.len() == 0 {
        seq![]
    } else {
        seq![ip_str(100u8, b, 0u8, hosts[0])] + targets_for_base(b, hosts.drop_first())
    }
}

pub open spec fn targets_for_bases(bases: Seq<u8>) -> Seq<Seq<char>>
    decreases bases.len(),
{
    if bases.len() == 0 {
        seq![]
    } else {
        targets_for_base(bases[0], phase_a_hosts()) + targets_for_bases(bases.drop_first())
    }
}

/// Phase A's scan order: `100.<base>.0.<host>` for every base and host.
pub open spec fn phase_a_targets_spec() -> Seq<Seq<char>> {
    targets_for_bases(phase_a_bases())
}

proof fn lemma_targets_for_base_step(b: u8, hosts: Seq<u8>, i: int)
    requires
        0 <= i < hosts.len(),
    ensures
        targets_for_base(b, hosts.skip(i)) == seq![ip_str(100u8, b, 0u8, hosts[i])]
            + targets_for_base(b, hosts.skip(i + 1)),
{
    assert(hosts.skip(i)[0] == hosts[i]);
    assert(hosts.skip(i).drop_first() =~= hosts.skip(i + 1));
}

proof fn lemma_targets_for_bases_step(bases: Seq<u8>, i: int)
    requires
        0 <= i < bases.len(),
    ensures
        targets_for_bases(bases.skip(i)) == targets_for_base(bases[i], phase_a_hosts())
            + targets_for_bases(bases.skip(i + 1)),
{
    assert(bases.skip(i)[0] == bases[i]);
    assert(bases.skip(i).drop_first() =~= bases.skip(i + 1));
}

proof fn lemma_targets_for_base_valid(b: u8, hosts: Seq<u8>)
    requires
        64 <= b <= 127,
    ensures
        all_valid(targets_for_base(b, hosts)),
    decreases hosts.len(),
{
    if hosts.len() > 0 {
        lemma_canonical_quad(100, b, 0, hosts[0]);
        lemma_targets_for_base_valid(b, hosts.drop_first());
        lemma_all_valid_concat(
            seq![ip_str(100u8, b, 0u8, hosts[0])],
            targets_for_base(b, hosts.drop_first()),
        );
    }
}

proof fn lemma_targets_for_bases_valid(bases: Seq<u8>)
    requires
        forall|i: int| 0 <= i < bases.len() ==> 64 <= #[trigger] bases[i] <= 127,
    ensures
        all_valid(targets_for_bases(bases)),
    decreases bases.len(),
{
    if bases.len() > 0 {
        lemma_targets_for_base_valid(bases[0], phase_a_hosts());
        lemma_targets_for_bases_valid(bases.drop_first());
        lemma_all_valid_concat(
            targets_for_base(bases[0], phase_a_hosts()),
            targets_for_bases(bases.drop_first()),
        );
    }
}

fn targets_for_base_exec(b: u8) -> (r: Vec<String>)
    ensures
        r.deep_view() == targets_for_base(b, phase_a_hosts()),
{
    let mut hosts: Vec<u8> = Vec::new();
    hosts.push(1);
    hosts.push(2);
    hosts.push(3);
    hosts.push(4);
    hosts.push(5);
    hosts.push(10);
    hosts.push(20);
    hosts.push(50);
    hosts.push(100);
    proof {
        assert(hosts@ =~= phase_a_hosts());
        assert(phase_a_hosts().skip(0) =~= phase_a_hosts());
    }
    let mut out: Vec<String> = Vec::new();
    let mut i: usize = 0;
    while i < hosts.len()
        invariant
            hosts@ == phase_a_hosts(),
            0 <= i <= hosts@.len(),
            targets_for_base(b, phase_a_hosts()) == out.deep_view() + targets_for_base(
                b,
                phase_a_hosts().skip(i as int),
            ),
        decreases hosts@.len() - i,
    {
        let ghost pre = out.deep_view();
        let ip = format_ip(100, b, 0, hosts[i]);
        out.push(ip);
        proof {
            lemma_targets_for_base_step(b, phase_a_hosts(), i as int);
            assert(out.deep_view() =~~= pre.push(ip_str(100u8, b, 0u8, phase_a_hosts()[i as int])));
            assert(out.deep_view() =~~= pre + seq![ip_str(100u8, b, 0u8, phase_a_hosts()[i as int])]);
        }
        i += 1;
    }
    proof {
        assert(targets_for_base(b, phase_a_hosts().skip(phase_a_hosts().len() as int)) =~~= Seq::<
            Seq<char>,
        >::empty());
        assert(out.deep_view() =~~= targets_for_base(b, phase_a_hosts()));
    }
    out
}

/// The Phase A scan list, in scan order: the caller attempts one short,
/// strictly bounded raw connection per entry. Every entry is a valid
/// candidate address.
pub fn phase_a_targets() -> (r: Vec<String>)
    ensures
        r.deep_view() == phase_a_targets_spec(),
        all_valid(r.deep_view()),
{
    proof {
        lemma_targets_for_bases_valid(phase_a_bases());
    }
    let mut bases: Vec<u8> = Vec::new();
    bases.push(64);
    bases.push(65);
    bases.push(66);
    bases.push(67);
    bases.push(68);
    bases.push(69);
    proof {
        assert(bases@ =~= phase_a_bases());
        assert(phase_a_bases().skip(0) =~= phase_a_bases());
    }
    let mut out: Vec<String> = Vec::new();
    let mut i: usize = 0;
    while i < bases.len()
        invariant
            bases@ == phase_a_bases(),
            0 <= i <= bases@.len(),
            phase_a_targets_spec() == out.deep_view() + targets_for_bases(
                phase_a_bases().skip(i as int),
            ),
        decreases bases@.len() - i,
    {
        let chunk = targets_for_base_exec(bases[i]);
        append_all(&mut out, chunk);
        proof {
            lemma_targets_for_bases_step(phase_a_bases(), i as int);
        }
        i += 1;
    }
    proof {
        assert(targets_for_bases(phase_a_bases().skip(phase_a_bases().len() as int)) =~~= Seq::<
            Seq<char>,
        >::empty());
        assert(out.deep_view() =~~= phase_a_targets_spec());
    }
    out
}

/// Which targets accepted a connection, in scan order.
pub open spec fn selected(targets: Seq<Seq<char>>, conn: Seq<bool>) -> Seq<Seq<char>>
    decreases targets.len(),
{
    if targets.len() == 0 {
        seq![]
    } else {
        (if conn[0] {
            seq![targets[0]]
        } else {
            seq![]
        }) + selected(targets.drop_first(), conn.drop_first())
    }
}

proof fn lemma_selected_step(targets: Seq<Seq<char>>, conn: Seq<bool>, i: int)
    requires
        0 <= i < targets.len(),
        targets.len() == conn.len(),
    ensures
        selected(targets.skip(i), conn.skip(i)) == (if conn[i] {
            seq![targets[i]]
        } else {
            Seq::<Seq<char>>::empty()
        }) + selected(targets.skip(i + 1), conn.skip(i + 1)),
{
    assert(targets.skip(i)[0] == targets[i]);
    assert(conn.skip(i)[0] == conn[i]);
    assert(targets.skip(i).drop_first() =~~= targets.skip(i + 1));
    assert(conn.skip(i).drop_first() =~= conn.skip(i + 1));
}

proof fn lemma_selected_valid(targets: Seq<Seq<char>>, conn: Seq<bool>)
    requires
        all_valid(targets),
    ensures
        all_valid(selected(targets, conn)),
    decreases targets.len(),
{
    if targets.len() > 0 {
        assert(all_valid(targets.drop_first()));
        lemma_selected_valid(targets.drop_first(), conn.drop_first());
        if conn[0] {
            lemma_all_valid_concat(
                seq![targets[0]],
                selected(targets.drop_first(), conn.drop_first()),
            );
        } else {
            lemma_all_valid_concat(
                Seq::<Seq<char>>::empty(),
                selected(targets.drop_first(), conn.drop_first()),
            );
        }
    }
}

/// Keeps the targets whose connection attempt succeeded, in scan order;
/// valid targets yield valid hits.
pub fn select_connected(targets: &Vec<String>, connected: &Vec<bool>) -> (r: Vec<String>)
    requires
        targets@.len() == connected@.len(),
    ensures
        r.deep_view() == selected(targets.deep_view(), connected@),
        all_valid(targets.deep_view()) ==> all_valid(r.deep_view()),
{
    proof {
        if all_valid(targets.deep_view()) {
            lemma_selected_valid(targets.deep_view(), connected@);
        }
    }
    let ghost ts = targets.deep_view();
    let ghost cs = connected@;
    proof {
        assert(ts.len() == targets@.len());
        assert(ts.skip(0) =~~= ts);
        assert(cs.skip(0) =~= cs);
    }
    let mut out: Vec<String> = Vec::new();
    let mut i: usize = 0;
    while i < targets.len()
        invariant
            ts == targets.deep_view(),
            cs == connected@,
            ts.len() == targets@.len(),
            cs.len() == ts.len(),
            0 <= i <= ts.len(),
            selected(ts, cs) == out.deep_view() + selected(ts.skip(i as int), cs.skip(i as int)),
        decreases ts.len() - i,
    {
        let ghost pre = out.deep_view();
        if connected[i] {
            let item = targets[i].clone();
            out.push(item);
            proof {
                assert(out.deep_view() =~~= pre.push(ts[i as int]));
            }
        }
        proof {
            lemma_selected_step(ts, cs, i as int);
        }
        i += 1;
    }
    proof {
        assert(selected(ts.skip(ts.len() as int), cs.skip(ts.len() as int)) =~~= Seq::<
            Seq<char>,
        >::empty());
        assert(out.deep_view() =~~= selected(ts, cs));
    }
    out
}

/// Phase B's synthesis: the host numbers one through ten under the local
/// address's first three octets, the local address itself excluded.
pub open spec fn phase_b_from(a: u8, b: u8, c: u8, d: u8, i: int) -> Seq<Seq<char>>
    decreases 11 - i,
{
    if i < 1 || i > 10 {
        seq![]
    } else {
        (if i != d {
            seq![ip_str(a, b, c, i as u8)]
        } else {
            seq![]
        }) + phase_b_from(a, b, c, d, i + 1)
    }
}

pub open spec fn phase_b_spec(a: u8, b: u8, c: u8, d: u8) -> Seq<Seq<char>> {
    phase_b_from(a, b, c, d, 1)
}

proof fn lemma_phase_b_from_valid(a: u8, b: u8, c: u8, d: u8, i: int)
    requires
        a == 100,
        64 <= b <= 127,
    ensures
        all_valid(phase_b_from(a, b, c, d, i)),
    decreases 11 - i,
{
    if 1 <= i <= 10 {
        lemma_canonical_quad(a, b, c, i as u8);
        lemma_phase_b_from_valid(a, b, c, d, i + 1);
        if i != d {
            lemma_all_valid_concat(seq![ip_str(a, b, c, i as u8)], phase_b_from(a, b, c, d, i + 1));
        } else {
            lemma_all_valid_concat(Seq::<Seq<char>>::empty(), phase_b_from(a, b, c, d, i + 1));
        }
    }
}

/// Synthesizes Phase B's candidates from the local machine's own mesh
/// octets, unvalidated by any connectivity pre-check. Octets inside the
/// mesh block yield valid candidates.
pub fn phase_b_candidates(a: u8, b: u8, c: u8, d: u8) -> (r: Vec<String>)
    ensures
        r.deep_view() == phase_b_spec(a, b, c, d),
        a == 100 && 64 <= b <= 127 ==> all_valid(r.deep_view()),
{
    proof {
        if a == 100 && 64 <= b <= 127 {
            lemma_phase_b_from_valid(a, b, c, d, 1);
        }
    }
    let mut out: Vec<String> = Vec::new();
    let mut i: u8 = 1;
    while i <= 10
        invariant
            1 <= i <= 11,
            phase_b_spec(a, b, c, d) == out.deep_view() + phase_b_from(a, b, c, d, i as int),
        decreases 11 - i,
    {
        let ghost pre = out.deep_view();
        if i != d {
            let ip = format_ip(a, b, c, i);
            out.push(ip);
            proof {
                assert(out.deep_view() =~~= pre.push(ip_str(a, b, c, i)));
            }
        }
        i += 1;
    }
    out
}

/// The octets of the first mesh address found in an interface listing.
pub open spec fn first_line_octets(lines: Seq<Seq<char>>) -> Option<(u8, u8, u8, u8)>
    decreases lines.len(),
{
    if lines.len() == 0 {
        None
    } else if line_octets_spec(lines[0]) is Some {
        line_octets_spec(lines[0])
    } else {
        first_line_octets(lines.drop_first())
    }
}

proof fn lemma_first_line_octets_step(lines: Seq<Seq<char>>, i: int)
    requires
        0 <= i < lines.len(),
        line_octets_spec(lines[i]) is None,
    ensures
        first_line_octets(lines.skip(i)) == first_line_octets(lines.skip(i + 1)),
{
    assert(lines.skip(i)[0] == lines[i]);
    assert(lines.skip(i).drop_first() =~~= lines.skip(i + 1));
}

/// Scans an interface listing, line by line, for the local machine's own
/// mesh address.
pub fn find_local_octets(lines: &Vec<String>) -> (r: Option<(u8, u8, u8, u8)>)
    ensures
        r == first_line_octets(lines.deep_view()),
{
    let ghost ls = lines.deep_view();
    proof {
        assert(ls.skip(0) =~~= ls);
    }
    let mut i: usize = 0;
    while i < lines.len()
        invariant
            ls == lines.deep_view(),
            ls.len() == lines@.len(),
            0 <= i <= ls.len(),
            first_line_octets(ls) == first_line_octets(ls.skip(i as int)),
        decreases ls.len() - i,
    {
        proof {
            assert(ls.skip(i as int)[0] == ls[i as int]);
            assert(ls[i as int] == lines@[i as int]@);
        }
        match line_octets(lines[i].as_str()) {
            Some(quad) => {
                return Some(quad);
            },
            None => {
                proof {
                    lemma_first_line_octets_step(ls, i as int);
                }
                i += 1;
            },
        }
    }
    proof {
        assert(ls.skip(ls.len() as int).len() == 0);
    }
    None
}

/// Combines the two phases' findings: Phase A's hits if it found any,
/// otherwise Phase B synthesized from the local address, otherwise the
/// scan failed.
pub fn fallback_candidates(phase_a_hits: Vec<String>, local: Option<(u8, u8, u8, u8)>) -> (r:
    Result<Vec<String>, DiscoveryError>)
    ensures
        phase_a_hits@.len() > 0 ==> (r matches Ok(v) && v.deep_view()
            == phase_a_hits.deep_view()),
        phase_a_hits@.len() == 0 ==> (match local {
            Some((a, b, c, d)) => r matches Ok(v) && v.deep_view() == phase_b_spec(a, b, c, d),
            None => r matches Err(e) && e is NoFallbackCandidates,
        }),
{
    if phase_a_hits.len() > 0 {
        return Ok(phase_a_hits);
    }
    match local {
        Some((a, b, c, d)) => Ok(phase_b_candidates(a, b, c, d)),
        None => Err(DiscoveryError::NoFallbackCandidates),
    }
}

} // verus!
