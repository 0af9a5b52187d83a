//! Validation and normalization of mesh addresses.
//!
//! A candidate mesh address is a dotted-decimal IPv4 string inside the
//! reserved carrier-grade-NAT block: first octet 100, second octet in
//! [64, 127]. `extract_ip_from_string` strips a trailing CIDR suffix or port
//! before validating; `extract_tailscale_ip_from_line` hunts for such an
//! address inside one line of a network-interface listing.

use vstd::prelude::*;

verus! {

// ---------------------------------------------------------------------------
// Characters and decimal digits
// ---------------------------------------------------------------------------

pub open spec fn is_digit_char(c: char) -> bool {
    48 <= c as u32 && c as u32 <= 57
}

/// Numeric value of a decimal digit character.
pub open spec fn digit_val(c: char) -> nat {
    ((c as u32) - 48) as nat
}

/// The decimal digit character for a value below ten.
pub open spec fn digit_char(d: nat) -> char {
    if d == 0 {
        '0'
    } else if d == 1 {
        '1'
    } else if d == 2 {
        '2'
    } else if d == 3 {
        '3'
    } else if d == 4 {
        '4'
    } else if d == 5 {
        '5'
    } else if d == 6 {
        '6'
    } else if d == 7 {
        '7'
    } else if d == 8 {
        '8'
    } else {
        '9'
    }
}

/// Canonical decimal rendering of an octet, without leading zeros.
pub open spec fn dec_str(n: u8) -> Seq<char> {
    if n < 10 {
        seq![digit_char(n as nat)]
    } else if n < 100 {
        seq![digit_char((n / 10) as nat), digit_char((n % 10) as nat)]
    } else {
        seq![
            digit_char((n / 100) as nat),
            digit_char(((n / 10) % 10) as nat),
            digit_char((n % 10) as nat),
        ]
    }
}

/// Canonical dotted-decimal rendering of four octets.
pub open spec fn ip_str(a: u8, b: u8, c: u8, d: u8) -> Seq<char> {
    dec_str(a) + seq!['.'] + dec_str(b) + seq!['.'] + dec_str(c) + seq!['.'] + dec_str(d)
}

fn digit_str(d: u8) -> (r: &'static str)
    requires
        d < 10,
    ensures
        r@ == seq![digit_char(d as nat)],
{
    proof {
        reveal_strlit("0");
        reveal_strlit("1");
        reveal_strlit("2");
        reveal_strlit("3");
        reveal_strlit("4");
        reveal_strlit("5");
        reveal_strlit("6");
        reveal_strlit("7");
        reveal_strlit("8");
        reveal_strlit("9");
    }
    let r: &'static str = if d == 0 {
        "0"
    } else if d == 1 {
        "1"
    } else if d == 2 {
        "2"
    } else if d == 3 {
        "3"
    } else if d == 4 {
        "4"
    } else if d == 5 {
        "5"
    } else if d == 6 {
        "6"
    } else if d == 7 {
        "7"
    } else if d == 8 {
        "8"
    } else {
        "9"
    };
    proof {
        assert(r@ =~= seq![digit_char(d as nat)]);
    }
    r
}

/// Renders one octet in decimal.
pub fn u8_to_string(n: u8) -> (r: String)
    ensures
        r@ == dec_str(n),
{
    if n < 10 {
        let s = digit_str(n).to_owned();
        proof {
            assert(s@ =~= dec_str(n));
        }
        s
    } else if n < 100 {
        let mut s = digit_str(n / 10).to_owned();
        s.append(digit_str(n % 10));
        proof {
            assert(s@ =~= dec_str(n));
        }
        s
    } else {
        let mut s = digit_str(n / 100).to_owned();
        s.append(digit_str((n / 10) % 10));
        s.append(digit_str(n % 10));
        proof {
            assert(s@ =~= dec_str(n));
        }
        s
    }
}

/// Renders four octets as a dotted-decimal address.
pub fn format_ip(a: u8, b: u8, c: u8, d: u8) -> (r: String)
    ensures
        r@ == ip_str(a, b, c, d),
{
    proof {
        reveal_strlit(".");
    }
    let mut s = u8_to_string(a);
    s.append(".");
    let sb = u8_to_string(b);
    s.append(sb.as_str());
    s.append(".");
    let sc = u8_to_string(c);
    s.append(sc.as_str());
    s.append(".");
    let sd = u8_to_string(d);
    s.append(sd.as_str());
    proof {
        assert(s@ =~= ip_str(a, b, c, d));
    }
    s
}

// ---------------------------------------------------------------------------
// Prefixes
// ---------------------------------------------------------------------------

pub open spec fn has_prefix(s: Seq<char>, p: Seq<char>) -> bool {
    s.len() >= p.len() && s.subrange(0, p.len() as int) == p
}

/// Whether `s` starts with `p`, character for character.
pub fn str_has_prefix(s: &str, p: &str) -> (r: bool)
    ensures
        r == has_prefix(s@, p@),
{
    let ns = s.unicode_len();
    let np = p.unicode_len();
    if ns < np {
        return false;
    }
    let mut i: usize = 0;
    while i < np
        invariant
            0 <= i <= np,
            np <= ns,
            ns == s@.len(),
            np == p@.len(),
            forall|k: int| 0 <= k < i ==> s@[k] == p@[k],
        decreases np - i,
    {
        if s.get_char(i) != p.get_char(i) {
            proof {
                assert(s@.subrange(0, np as int)[i as int] != p@[i as int]);
            }
            return false;
        }
        i += 1;
    }
    proof {
        assert(s@.subrange(0, np as int) =~= p@);
    }
    true
}

// ---------------------------------------------------------------------------
// Splitting
// ---------------------------------------------------------------------------

/// The prefix of `s` before the first `/` (CIDR suffix) or `:` (port suffix).
pub open spec fn stop_char(c: char) -> bool {
    c == '/' || c == ':'
}

pub open spec fn host_part(s: Seq<char>) -> Seq<char>
    decreases s.len(),
{
    if s.len() == 0 {
        s
    } else if stop_char(s[0]) {
        Seq::empty()
    } else {
        seq![s[0]] + host_part(s.drop_first())
    }
}

/// Strips a trailing CIDR or port suffix: everything from the first `/` or
/// `:` on is dropped.
pub fn host_part_exec(s: &str) -> (r: String)
    ensures
        r@ == host_part(s@),
    decreases s@.len(),
{
    let n = s.unicode_len();
    if n == 0 {
        String::new()
    } else {
        let c = s.get_char(0);
        if c == '/' || c == ':' {
            String::new()
        } else {
            let rest = s.substring_char(1, n);
            proof {
                assert(rest@ =~= s@.drop_first());
            }
            let mut out = s.substring_char(0, 1).to_owned();
            let tail = host_part_exec(rest);
            out.append(tail.as_str());
            proof {
                assert(out@ =~= host_part(s@));
            }
            out
        }
    }
}

/// Split at every occurrence of `sep`, as the standard `split` does: the
/// result always has one part more than there are separators, and empty
/// parts are kept.
pub open spec fn split_on(s: Seq<char>, sep: char) -> Seq<Seq<char>>
    decreases s.len(),
{
    if s.len() == 0 {
        seq![Seq::<char>::empty()]
    } else if s[0] == sep {
        seq![Seq::<char>::empty()] + split_on(s.drop_first(), sep)
    } else {
        let rest = split_on(s.drop_first(), sep);
        seq![seq![s[0]] + rest[0]] + rest.drop_first()
    }
}

pub proof fn lemma_split_on_nonempty(s: Seq<char>, sep: char)
    ensures
        split_on(s, sep).len() >= 1,
    decreases s.len(),
{
    if s.len() == 0 {
    } else if s[0] == sep {
        lemma_split_on_nonempty(s.drop_first(), sep);
    } else {
        lemma_split_on_nonempty(s.drop_first(), sep);
    }
}

pub fn split_on_exec(s: &str, sep: char) -> (r: Vec<String>)
    ensures
        r.deep_view() == split_on(s@, sep),
    decreases s@.len(),
{
    let n = s.unicode_len();
    if n == 0 {
        let mut r: Vec<String> = Vec::new();
        r.push(String::new());
        proof {
            assert(r.deep_view() =~~= split_on(s@, sep));
        }
        r
    } else {
        let c = s.get_char(0);
        let rest = s.substring_char(1, n);
        proof {
            assert(rest@ =~= s@.drop_first());
        }
        let mut rr = split_on_exec(rest, sep);
        proof {
            lemma_split_on_nonempty(rest@, sep);
            assert(rr@.len() == rr.deep_view().len());
        }
        if c == sep {
            rr.insert(0, String::new());
            proof {
                assert(rr.deep_view() =~~= split_on(s@, sep));
            }
        } else {
            let head0 = rr.remove(0);
            let mut head = s.substring_char(0, 1).to_owned();
            head.append(head0.as_str());
            rr.insert(0, head);
            proof {
                assert(rr.deep_view() =~~= split_on(s@, sep));
            }
        }
        rr
    }
}

// ---------------------------------------------------------------------------
// Octet parsing, as the standard unsigned-integer parser accepts it:
// an optional leading plus sign, then one or more decimal digits whose value
// fits in eight bits (leading zeros allowed).
// ---------------------------------------------------------------------------

pub open spec fn all_digits(s: Seq<char>) -> bool {
    forall|i: int| 0 <= i < s.len() ==> is_digit_char(s[i])
}

pub open spec fn digits_val(s: Seq<char>) -> nat
    decreases s.len(),
{
    if s.len() == 0 {
        0
    } else {
        digits_val(s.drop_last()) * 10 + digit_val(s.last())
    }
}

pub open spec fn parse_u8_digits(s: Seq<char>) -> Option<u8> {
    if s.len() > 0 && all_digits(s) && digits_val(s) <= 255 {
        Some(digits_val(s) as u8)
    } else {
        None
    }
}

pub open spec fn parse_u8_spec(s: Seq<char>) -> Option<u8> {
    if s.len() > 0 && s[0] == '+' {
        parse_u8_digits(s.drop_first())
    } else {
        parse_u8_digits(s)
    }
}

/// Parses an octet as the standard library would.
pub fn parse_u8(s: &str) -> (r: Option<u8>)
    ensures
        r == parse_u8_spec(s@),
{
    let n = s.unicode_len();
    let start: usize = if n > 0 && s.get_char(0) == '+' {
        1
    } else {
        0
    };
    let ghost t: Seq<char> = s@.subrange(start as int, n as int);
    proof {
        if start == 1 {
            assert(t =~= s@.drop_first());
        } else {
            assert(t =~= s@);
        }
    }
    if n == start {
        return None;
    }
    let mut acc: u32 = 0;
    let mut i: usize = start;
    while i < n
        invariant
            start <= i <= n,
            n == s@.len(),
            start <= 1,
            start == 1 <==> (s@.len() > 0 && s@[0] == '+'),
            start == 1 ==> t == s@.drop_first(),
            start == 0 ==> t == s@,
            t == s@.subrange(start as int, n as int),
            t.len() == n - start,
            forall|k: int| 0 <= k < i - start ==> is_digit_char(t[k]),
            (acc <= 255 && acc as nat == digits_val(t.take(i - start))) || (acc == 256
                && digits_val(t.take(i - start)) > 255),
        decreases n - i,
    {
        let c = s.get_char(i);
        let u = c as u32;
        if u < 48 || u > 57 {
            proof {
                assert(t[i - start] == s@[i as int]);
                assert(!is_digit_char(t[i - start]));
            }
            return None;
        }
        let d = u - 48;
        proof {
            assert(t.take(i - start + 1).drop_last() =~= t.take(i - start));
            assert(t.take(i - start + 1).last() == t[i - start]);
            assert(t[i - start] == s@[i as int]);
        }
        let next = acc * 10 + d;
        if next > 255 {
            acc = 256;
        } else {
            acc = next;
        }
        i += 1;
    }
    proof {
        assert(t.take((n - start) as int) =~= t);
    }
    if acc <= 255 {
        Some(acc as u8)
    } else {
        None
    }
}

// ---------------------------------------------------------------------------
// Mesh address validation
// ---------------------------------------------------------------------------

/// The octet values of a dotted-decimal mesh address: the string must start
/// with `100.`, have exactly four parts, each parsing as an octet, with the
/// second octet inside the reserved block's range [64, 127].
pub open spec fn mesh_quad_vals(sq: Seq<char>) -> Option<(u8, u8, u8, u8)> {
    if !has_prefix(sq, "100."@) {
        None
    } else {
        let parts = split_on(sq, '.');
        if parts.len() != 4 {
            None
        } else {
            match (parse_u8_spec(parts[0]), parse_u8_spec(parts[1]), parse_u8_spec(parts[2]),
            parse_u8_spec(parts[3])) {
                (Some(a), Some(b), Some(c), Some(d)) => if a == 100 && 64 <= b && b <= 127 {
                    Some((a, b, c, d))
                } else {
                    None
                },
                _ => None,
            }
        }
    }
}

/// Checks a bare dotted-decimal string against the mesh block and returns
/// its octet values.
pub fn check_quad(sq: &str) -> (r: Option<(u8, u8, u8, u8)>)
    ensures
        r == mesh_quad_vals(sq@),
{
    if !str_has_prefix(sq, "100.") {
        return None;
    }
    let parts = split_on_exec(sq, '.');
    proof {
        assert(parts@.len() == parts.deep_view().len());
    }
    if parts.len() != 4 {
        return None;
    }
    proof {
        assert forall|k: int| 0 <= k < 4 implies parts@[k]@ == split_on(sq@, '.')[k] by {
            assert(parts.deep_view()[k] == parts@[k]@);
        }
    }
    let p0 = parse_u8(parts[0].as_str());
    let p1 = parse_u8(parts[1].as_str());
    let p2 = parse_u8(parts[2].as_str());
    let p3 = parse_u8(parts[3].as_str());
    match (p0, p1, p2, p3) {
        (Some(a), Some(b), Some(c), Some(d)) => {
            if a == 100 && 64 <= b && b <= 127 {
                Some((a, b, c, d))
            } else {
                None
            }
        },
        _ => None,
    }
}

/// A string the validator accepts as it stands: a dotted-decimal address
/// of the mesh's reserved block, with no CIDR or port suffix left.
pub open spec fn is_valid_candidate(ip: Seq<char>) -> bool {
    mesh_quad_vals(ip) is Some
}

pub open spec fn all_valid(s: Seq<Seq<char>>) -> bool {
    forall|i: int| 0 <= i < s.len() ==> is_valid_candidate(#[trigger] s[i])
}

pub proof fn lemma_all_valid_concat(a: Seq<Seq<char>>, b: Seq<Seq<char>>)
    requires
        all_valid(a),
        all_valid(b),
    ensures
        all_valid(a + b),
{
    assert forall|i: int| 0 <= i < (a + b).len() implies is_valid_candidate(
        #[trigger] (a + b)[i],
    ) by {
        if i < a.len() {
            assert((a + b)[i] == a[i]);
        } else {
            assert((a + b)[i] == b[i - a.len()]);
        }
    }
}

// ---------------------------------------------------------------------------
// The canonical rendering round-trips through the validator
// ---------------------------------------------------------------------------

proof fn lemma_digit_char(d: nat)
    requires
        d < 10,
    ensures
        is_digit_char(digit_char(d)),
        digit_val(digit_char(d)) == d,
        digit_char(d) != '.',
        digit_char(d) != '+',
{
}

proof fn lemma_digits_val_push(s: Seq<char>, c: char)
    ensures
        digits_val(s.push(c)) == digits_val(s) * 10 + digit_val(c),
{
    assert(s.push(c).drop_last() =~= s);
    assert(s.push(c).last() == c);
}

proof fn lemma_dec_str_parses(n: u8)
    ensures
        dec_str(n).len() >= 1,
        all_digits(dec_str(n)),
        forall|i: int| 0 <= i < dec_str(n).len() ==> #[trigger] dec_str(n)[i] != '.',
        parse_u8_spec(dec_str(n)) == Some(n),
{
    let s = dec_str(n);
    let e = Seq::<char>::empty();
    assert(digits_val(e) == 0);
    if n < 10 {
        lemma_digit_char(n as nat);
        let d0 = digit_char(n as nat);
        assert(s =~= e.push(d0));
        lemma_digits_val_push(e, d0);
        assert(digits_val(s) == n);
    } else if n < 100 {
        lemma_digit_char((n / 10) as nat);
        lemma_digit_char((n % 10) as nat);
        let d1 = digit_char((n / 10) as nat);
        let d0 = digit_char((n % 10) as nat);
        assert(s =~= e.push(d1).push(d0));
        lemma_digits_val_push(e, d1);
        lemma_digits_val_push(e.push(d1), d0);
        assert(digits_val(s) == (n / 10) * 10 + (n % 10));
        assert(n == (n / 10) * 10 + (n % 10)) by (nonlinear_arith);
    } else {
        lemma_digit_char((n / 100) as nat);
        lemma_digit_char(((n / 10) % 10) as nat);
        lemma_digit_char((n % 10) as nat);
        let d2 = digit_char((n / 100) as nat);
        let d1 = digit_char(((n / 10) % 10) as nat);
        let d0 = digit_char((n % 10) as nat);
        assert(s =~= e.push(d2).push(d1).push(d0));
        lemma_digits_val_push(e, d2);
        lemma_digits_val_push(e.push(d2), d1);
        lemma_digits_val_push(e.push(d2).push(d1), d0);
        assert(digits_val(s) == ((n / 100) * 10 + (n / 10) % 10) * 10 + (n % 10));
        assert(n == ((n / 100) * 10 + (n / 10) % 10) * 10 + (n % 10)) by (nonlinear_arith);
    }
    assert(s[0] != '+');
    assert(digits_val(s) == n);
}

proof fn lemma_split_on_no_sep(s: Seq<char>, sep: char)
    requires
        forall|i: int| 0 <= i < s.len() ==> s[i] != sep,
    ensures
        split_on(s, sep) == seq![s],
    decreases s.len(),
{
    if s.len() == 0 {
        assert(split_on(s, sep) =~~= seq![s]);
    } else {
        lemma_split_on_no_sep(s.drop_first(), sep);
        let rest = split_on(s.drop_first(), sep);
        assert(rest[0] == s.drop_first());
        assert(seq![s[0]] + s.drop_first() =~= s);
        assert(rest.drop_first() =~~= Seq::<Seq<char>>::empty());
        assert(split_on(s, sep) =~~= seq![s]);
    }
}

proof fn lemma_split_on_concat(a: Seq<char>, rest: Seq<char>, sep: char)
    requires
        forall|i: int| 0 <= i < a.len() ==> a[i] != sep,
    ensures
        split_on(a + seq![sep] + rest, sep) == seq![a] + split_on(rest, sep),
    decreases a.len(),
{
    let s = a + seq![sep] + rest;
    if a.len() == 0 {
        assert(s[0] == sep);
        assert(s.drop_first() =~= rest);
        assert(split_on(s, sep) =~~= seq![a] + split_on(rest, sep));
    } else {
        assert(s[0] == a[0]);
        assert(s.drop_first() =~= a.drop_first() + seq![sep] + rest);
        lemma_split_on_concat(a.drop_first(), rest, sep);
        let restsplit = split_on(s.drop_first(), sep);
        assert(restsplit == seq![a.drop_first()] + split_on(rest, sep));
        assert(restsplit[0] == a.drop_first());
        assert(seq![s[0]] + a.drop_first() =~= a);
        assert(restsplit.drop_first() =~~= split_on(rest, sep));
        assert(split_on(s, sep) =~~= seq![a] + split_on(rest, sep));
    }
}

/// The canonical rendering of octets inside the mesh block is accepted by
/// the validator as it stands, and parses back to the very same octets.
pub proof fn lemma_canonical_quad(a: u8, b: u8, c: u8, d: u8)
    requires
        a == 100,
        64 <= b <= 127,
    ensures
        mesh_quad_vals(ip_str(a, b, c, d)) == Some((a, b, c, d)),
        is_valid_candidate(ip_str(a, b, c, d)),
{
    let s = ip_str(a, b, c, d);
    let sa = dec_str(a);
    let sb = dec_str(b);
    let sc = dec_str(c);
    let sd = dec_str(d);
    lemma_dec_str_parses(a);
    lemma_dec_str_parses(b);
    lemma_dec_str_parses(c);
    lemma_dec_str_parses(d);
    assert(s =~= sa + seq!['.'] + (sb + seq!['.'] + (sc + seq!['.'] + sd)));
    lemma_split_on_concat(sa, sb + seq!['.'] + (sc + seq!['.'] + sd), '.');
    lemma_split_on_concat(sb, sc + seq!['.'] + sd, '.');
    lemma_split_on_concat(sc, sd, '.');
    lemma_split_on_no_sep(sd, '.');
    let parts = split_on(s, '.');
    assert(sb + seq!['.'] + (sc + seq!['.'] + sd) =~= sb + seq!['.'] + (sc + seq!['.'] + sd));
    assert(parts =~~= seq![sa, sb, sc, sd]);
    assert(parts.len() == 4);
    assert(parts[0] == sa && parts[1] == sb && parts[2] == sc && parts[3] == sd);
    lemma_digit_char(1);
    lemma_digit_char(0);
    assert(sa =~= seq!['1', '0', '0']);
    reveal_strlit("100.");
    assert(s.subrange(0, 4) =~= "100."@);
    assert(has_prefix(s, "100."@));
}

/// What normalization returns: the string with any CIDR or port suffix
/// stripped, if the remainder is a valid mesh address; nothing otherwise.
pub open spec fn normalize_spec(s: Seq<char>) -> Option<Seq<char>> {
    let ip = host_part(s);
    if mesh_quad_vals(ip) is Some {
        Some(ip)
    } else {
        None
    }
}

/// Normalizes a raw address string: strips a trailing CIDR suffix or port,
/// then accepts exactly the dotted-decimal addresses of the mesh's reserved
/// block (first octet 100, second octet in [64, 127]).
pub fn extract_ip_from_string(ip_str: &str) -> (r: Option<String>)
    ensures
        r matches Some(ip) ==> normalize_spec(ip_str@) == Some(ip@),
        r is None ==> normalize_spec(ip_str@) is None,
{
    let host = host_part_exec(ip_str);
    match check_quad(host.as_str()) {
        Some(_) => Some(host),
        None => None,
    }
}

// ---------------------------------------------------------------------------
// Scanning one line of an interface listing
// ---------------------------------------------------------------------------

pub open spec fn is_space(c: char) -> bool {
    c == ' ' || c == '\t' || c == '\n' || c == '\r' || c == '\u{0B}' || c == '\u{0C}'
}

fn is_space_exec(c: char) -> (b: bool)
    ensures
        b == is_space(c),
{
    c == ' ' || c == '\t' || c == '\n' || c == '\r' || c == '\u{0B}' || c == '\u{0C}'
}

/// The whitespace-separated words of a line, in order, without empties.
pub open spec fn words_of(s: Seq<char>) -> Seq<Seq<char>>
    decreases s.len(),
{
    if s.len() == 0 {
        seq![]
    } else if is_space(s[0]) {
        words_of(s.drop_first())
    } else if s.len() == 1 {
        seq![seq![s[0]]]
    } else if is_space(s[1]) {
        seq![seq![s[0]]] + words_of(s.drop_first())
    } else {
        let rest = words_of(s.drop_first());
        seq![seq![s[0]] + rest[0]] + rest.drop_first()
    }
}

proof fn lemma_words_of_nonempty(s: Seq<char>)
    requires
        s.len() > 0,
        !is_space(s[0]),
    ensures
        words_of(s).len() >= 1,
{
}

fn words_of_exec(s: &str) -> (r: Vec<String>)
    ensures
        r.deep_view() == words_of(s@),
    decreases s@.len(),
{
    let n = s.unicode_len();
    if n == 0 {
        let r: Vec<String> = Vec::new();
        proof {
            assert(r.deep_view() =~~= words_of(s@));
        }
        return r;
    }
    let c = s.get_char(0);
    let rest = s.substring_char(1, n);
    proof {
        assert(rest@ =~= s@.drop_first());
    }
    if is_space_exec(c) {
        words_of_exec(rest)
    } else if n == 1 {
        let mut r: Vec<String> = Vec::new();
        r.push(s.substring_char(0, 1).to_owned());
        proof {
            assert(r.deep_view() =~~= words_of(s@));
        }
        r
    } else {
        let c1 = s.get_char(1);
        let mut rr = words_of_exec(rest);
        if is_space_exec(c1) {
            rr.insert(0, s.substring_char(0, 1).to_owned());
            proof {
                assert(rr.deep_view() =~~= words_of(s@));
            }
        } else {
            proof {
                lemma_words_of_nonempty(rest@);
                assert(rr@.len() == rr.deep_view().len());
            }
            let head0 = rr.remove(0);
            let mut head = s.substring_char(0, 1).to_owned();
            head.append(head0.as_str());
            rr.insert(0, head);
            proof {
                assert(rr.deep_view() =~~= words_of(s@));
            }
        }
        rr
    }
}

/// The characters a word is trimmed down to: digits and dots.
pub open spec fn addr_char(c: char) -> bool {
    is_digit_char(c) || c == '.'
}

fn addr_char_exec(c: char) -> (b: bool)
    ensures
        b == addr_char(c),
{
    let u = c as u32;
    (48 <= u && u <= 57) || c == '.'
}

pub open spec fn trim_front(s: Seq<char>) -> Seq<char>
    decreases s.len(),
{
    if s.len() == 0 {
        s
    } else if addr_char(s[0]) {
        s
    } else {
        trim_front(s.drop_first())
    }
}

pub open spec fn trim_back(s: Seq<char>) -> Seq<char>
    decreases s.len(),
{
    if s.len() == 0 {
        s
    } else if addr_char(s.last()) {
        s
    } else {
        trim_back(s.drop_last())
    }
}

/// A word with everything but digits and dots trimmed from both ends.
pub open spec fn trim_word(s: Seq<char>) -> Seq<char> {
    trim_back(trim_front(s))
}

fn trim_front_exec(s: &str) -> (r: String)
    ensures
        r@ == trim_front(s@),
    decreases s@.len(),
{
    let n = s.unicode_len();
    if n == 0 {
        return s.to_owned();
    }
    if addr_char_exec(s.get_char(0)) {
        return s.to_owned();
    }
    let rest = s.substring_char(1, n);
    proof {
        assert(rest@ =~= s@.drop_first());
    }
    trim_front_exec(rest)
}

fn trim_back_exec(s: &str) -> (r: String)
    ensures
        r@ == trim_back(s@),
    decreases s@.len(),
{
    let n = s.unicode_len();
    if n == 0 {
        return s.to_owned();
    }
    if addr_char_exec(s.get_char(n - 1)) {
        return s.to_owned();
    }
    let rest = s.substring_char(0, n - 1);
    proof {
        assert(rest@ =~= s@.drop_last());
    }
    trim_back_exec(rest)
}

/// What scanning one word yields: the octets of its trimmed core, if that
/// core is a valid mesh address.
pub open spec fn word_octets(w: Seq<char>) -> Option<(u8, u8, u8, u8)> {
    mesh_quad_vals(trim_word(w))
}

pub open spec fn first_word_octets(ws: Seq<Seq<char>>) -> Option<(u8, u8, u8, u8)>
    decreases ws.len(),
{
    if ws.len() == 0 {
        None
    } else if word_octets(ws[0]) is Some {
        word_octets(ws[0])
    } else {
        first_word_octets(ws.drop_first())
    }
}

/// What scanning one line yields: the octets of the first word holding a
/// mesh address.
pub open spec fn line_octets_spec(line: Seq<char>) -> Option<(u8, u8, u8, u8)> {
    first_word_octets(words_of(line))
}

/// What the line scanner returns: the first mesh address of the line,
/// re-rendered canonically from its parsed octets.
pub open spec fn line_ip_spec(line: Seq<char>) -> Option<Seq<char>> {
    match line_octets_spec(line) {
        Some((a, b, c, d)) => Some(ip_str(a, b, c, d)),
        None => None,
    }
}

proof fn lemma_first_word_octets_step(ws: Seq<Seq<char>>, i: int)
    requires
        0 <= i < ws.len(),
        word_octets(ws[i]) is None,
    ensures
        first_word_octets(ws.skip(i)) == first_word_octets(ws.skip(i + 1)),
{
    assert(ws.skip(i)[0] == ws[i]);
    assert(ws.skip(i).drop_first() =~~= ws.skip(i + 1));
}

/// Scans one line of an interface listing: each whitespace-separated word
/// is trimmed of everything but digits and dots, and the first word whose
/// core is a valid mesh address yields that core's octets.
pub fn line_octets(line: &str) -> (r: Option<(u8, u8, u8, u8)>)
    ensures
        r == line_octets_spec(line@),
{
    let words = words_of_exec(line);
    let ghost ws = words.deep_view();
    proof {
        assert(ws.skip(0) =~~= ws);
    }
    let mut i: usize = 0;
    while i < words.len()
        invariant
            ws == words.deep_view(),
            ws == words_of(line@),
            words@.len() == ws.len(),
            0 <= i <= ws.len(),
            first_word_octets(ws) == first_word_octets(ws.skip(i as int)),
        decreases ws.len() - i,
    {
        proof {
            assert(ws[i as int] == words@[i as int]@);
            assert(ws.skip(i as int)[0] == ws[i as int]);
        }
        let t1 = trim_front_exec(words[i].as_str());
        let t = trim_back_exec(t1.as_str());
        match check_quad(t.as_str()) {
            Some((a, b, c, d)) => {
                proof {
                    assert(word_octets(ws[i as int]) == Some((a, b, c, d)));
                }
                return Some((a, b, c, d));
            },
            None => {
                proof {
                    assert(word_octets(ws[i as int]) is None);
                    lemma_first_word_octets_step(ws, i as int);
                }
                i += 1;
            },
        }
    }
    proof {
        assert(ws.skip(ws.len() as int).len() == 0);
    }
    None
}

/// Any octets the word scanner yields lie inside the mesh block.
proof fn lemma_first_word_octets_range(ws: Seq<Seq<char>>)
    ensures
        first_word_octets(ws) matches Some(q) ==> q.0 == 100 && 64 <= q.1 <= 127,
    decreases ws.len(),
{
    if ws.len() > 0 {
        lemma_first_word_octets_range(ws.drop_first());
    }
}

/// Scans one line of an interface listing for a mesh address; the address
/// is re-rendered canonically from its parsed octets, and is itself a
/// valid candidate.
pub fn extract_tailscale_ip_from_line(line: &str) -> (r: Option<String>)
    ensures
        r matches Some(ip) ==> line_ip_spec(line@) == Some(ip@) && is_valid_candidate(ip@),
        r is None ==> line_ip_spec(line@) is None,
{
    match line_octets(line) {
        Some((a, b, c, d)) => {
            proof {
                lemma_first_word_octets_range(words_of(line@));
                lemma_canonical_quad(a, b, c, d);
            }
            Some(format_ip(a, b, c, d))
        },
        None => None,
    }
}

// ---------------------------------------------------------------------------
// Idempotence of normalization
// ---------------------------------------------------------------------------

proof fn lemma_host_part_no_stop(s: Seq<char>)
    ensures
        forall|i: int| 0 <= i < host_part(s).len() ==> !stop_char(#[trigger] host_part(s)[i]),
    decreases s.len(),
{
    if s.len() == 0 {
    } else if stop_char(s[0]) {
    } else {
        lemma_host_part_no_stop(s.drop_first());
        assert forall|i: int| 0 <= i < host_part(s).len() implies !stop_char(
            #[trigger] host_part(s)[i],
        ) by {
            if i > 0 {
                assert(host_part(s)[i] == host_part(s.drop_first())[i - 1]);
            }
        }
    }
}

proof fn lemma_host_part_id(s: Seq<char>)
    requires
        forall|i: int| 0 <= i < s.len() ==> !stop_char(s[i]),
    ensures
        host_part(s) == s,
    decreases s.len(),
{
    if s.len() == 0 {
    } else {
        assert(!stop_char(s[0]));
        assert(forall|i: int| 0 <= i < s.drop_first().len() ==> !stop_char(s.drop_first()[i]));
        lemma_host_part_id(s.drop_first());
        assert(seq![s[0]] + s.drop_first() =~= s);
    }
}

/// Normalization is idempotent: run on its own output, it returns that
/// output unchanged.
pub proof fn lemma_normalize_idempotent(s: Seq<char>)
    requires
        normalize_spec(s) is Some,
    ensures
        normalize_spec(normalize_spec(s).unwrap()) == normalize_spec(s),
{
    let ip = host_part(s);
    lemma_host_part_no_stop(s);
    lemma_host_part_id(ip);
}

} // verus!
