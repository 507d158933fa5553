//! Hexadecimal text: MAC addresses ("aa:bb:cc:dd:ee:ff") and colors
//! ("FF0000"), both directions.

use vstd::prelude::*;

verus! {

// ---------------------------------------------------------------------------
// Characters
// ---------------------------------------------------------------------------

/// Lowercase hex digit of a nibble.
pub open spec fn hex_digit_char(n: int) -> char {
    if n < 10 {
        (48 + n) as char
    } else {
        (87 + n) as char
    }
}

/// Whether `c` is an ASCII hex digit (either case).
pub open spec fn is_hex_char(c: char) -> bool {
    ('0' <= c && c <= '9') || ('a' <= c && c <= 'f') || ('A' <= c && c <= 'F')
}

/// Value of an ASCII hex digit.
pub open spec fn hex_char_value(c: char) -> int {
    if '0' <= c && c <= '9' {
        c as int - 48
    } else if 'a' <= c && c <= 'f' {
        c as int - 87
    } else {
        c as int - 55
    }
}

/// Whether every character of `ds` is a hex digit.
pub open spec fn all_hex(ds: Seq<char>) -> bool {
    forall|i: int| 0 <= i < ds.len() ==> #[trigger] is_hex_char(ds[i])
}

/// Value of a string of hex digits (most significant first).
pub open spec fn hex_value(ds: Seq<char>) -> int
    decreases ds.len(),
{
    if ds.len() == 0 {
        0
    } else {
        16 * hex_value(ds.drop_last()) + hex_char_value(ds.last())
    }
}

fn hex_char(n: u8) -> (c: char)
    requires
        n < 16,
    ensures
        c == hex_digit_char(n as int),
{
    match n {
        0 => '0',
        1 => '1',
        2 => '2',
        3 => '3',
        4 => '4',
        5 => '5',
        6 => '6',
        7 => '7',
        8 => '8',
        9 => '9',
        10 => 'a',
        11 => 'b',
        12 => 'c',
        13 => 'd',
        14 => 'e',
        _ => 'f',
    }
}

/// Value of a hex digit, None for any other character.
fn hex_char_to_value(c: char) -> (r: Option<u8>)
    ensures
        r is Some <==> is_hex_char(c),
        r matches Some(v) ==> v as int == hex_char_value(c) && v < 16,
{
    if '0' <= c && c <= '9' {
        Some((c as u32 - 48) as u8)
    } else if 'a' <= c && c <= 'f' {
        Some((c as u32 - 87) as u8)
    } else if 'A' <= c && c <= 'F' {
        Some((c as u32 - 55) as u8)
    } else {
        None
    }
}

/// Append one character to a string through std's `String::push`, which
/// vstd gives no specification; trusted to leave the string's characters
/// followed by `c`, as its documentation says.
#[verifier::external_body]
fn string_push(s: &mut String, c: char)
    ensures
        final(s)@ == old(s)@.push(c),
{
    s.push(c);
}

/// The characters of a string slice, in order.
pub fn chars_of(s: &str) -> (r: Vec<char>)
    ensures
        r@ == s@,
{
    let n = s.unicode_len();
    let mut r: Vec<char> = Vec::new();
    let mut i: usize = 0;
    while i < n
        invariant
            n == s@.len(),
            i <= n,
            r@ == s@.take(i as int),
        decreases n - i,
    {
        r.push(s.get_char(i));
        i += 1;
        assert(r@ =~= s@.take(i as int));
    }
    assert(s@.take(n as int) =~= s@);
    r
}

// ---------------------------------------------------------------------------
// MAC text
// ---------------------------------------------------------------------------

/// "aa:bb:cc:dd:ee:ff" text of a 6-byte MAC: two lowercase hex digits per
/// byte, colon-separated.
pub open spec fn mac_text(mac: Seq<u8>) -> Seq<char> {
    Seq::new(
        17,
        |i: int|
            if i % 3 == 2 {
                ':'
            } else if i % 3 == 0 {
                hex_digit_char(mac[i / 3] as int / 16)
            } else {
                hex_digit_char(mac[i / 3] as int % 16)
            },
    )
}

/// Format a MAC as "aa:bb:cc:dd:ee:ff".
pub fn mac_to_string(mac: &[u8; 6]) -> (s: String)
    ensures
        s@ == mac_text(mac@),
{
    let mut s = String::new();
    let mut i: usize = 0;
    while i < 17
        invariant
            i <= 17,
            s@ == mac_text(mac@).take(i as int),
        decreases 17 - i,
    {
        let c = if i % 3 == 2 {
            ':'
        } else if i % 3 == 0 {
            hex_char(mac[i / 3] / 16)
        } else {
            hex_char(mac[i / 3] % 16)
        };
        string_push(&mut s, c);
        i += 1;
        assert(s@ =~= mac_text(mac@).take(i as int));
    }
    assert(mac_text(mac@).take(17) =~= mac_text(mac@));
    s
}

// ---------------------------------------------------------------------------
// Splitting on ':'
// ---------------------------------------------------------------------------

/// `s.split(':')` as a sequence of parts (an empty input gives one empty part).
pub open spec fn split_colon(s: Seq<char>) -> Seq<Seq<char>>
    decreases s.len(),
{
    if s.len() == 0 {
        seq![Seq::empty()]
    } else {
        let prev = split_colon(s.drop_last());
        if s.last() == ':' {
            prev.push(Seq::empty())
        } else {
            prev.update(prev.len() - 1, prev.last().push(s.last()))
        }
    }
}

pub proof fn lemma_split_colon_nonempty(s: Seq<char>)
    ensures
        split_colon(s).len() >= 1,
    decreases s.len(),
{
    if s.len() > 0 {
        lemma_split_colon_nonempty(s.drop_last());
    }
}

/// The views of a vector of character vectors.
pub open spec fn parts_view(v: Seq<Vec<char>>) -> Seq<Seq<char>> {
    Seq::new(v.len(), |i: int| v[i]@)
}

/// Split characters on ':' exactly as `str::split(':')` does.
pub fn split_colon_exec(cs: &Vec<char>) -> (parts: Vec<Vec<char>>)
    ensures
        parts_view(parts@) == split_colon(cs@),
{
    let mut done: Vec<Vec<char>> = Vec::new();
    let mut cur: Vec<char> = Vec::new();
    let mut i: usize = 0;
    assert(cs@.take(0) =~= Seq::<char>::empty());
    assert(parts_view(done@).push(cur@) =~= split_colon(cs@.take(0)));
    while i < cs.len()
        invariant
            i <= cs@.len(),
            parts_view(done@).push(cur@) == split_colon(cs@.take(i as int)),
        decreases cs@.len() - i,
    {
        let c = cs[i];
        let ghost before = cs@.take(i as int);
        proof {
            assert(cs@.take(i + 1).drop_last() =~= before);
            assert(cs@.take(i + 1).last() == c);
        }
        if c == ':' {
            let ghost old_done = parts_view(done@);
            let finished = cur;
            done.push(finished);
            cur = Vec::new();
            proof {
                assert(parts_view(done@) =~= old_done.push(finished@));
                assert(parts_view(done@).push(cur@) =~= split_colon(cs@.take(i + 1)));
            }
        } else {
            let ghost prev = split_colon(before);
            cur.push(c);
            proof {
                assert(parts_view(done@).push(cur@) =~= prev.update(
                    prev.len() - 1,
                    prev.last().push(c),
                ));
            }
        }
        i += 1;
    }
    assert(cs@.take(cs@.len() as int) =~= cs@);
    let ghost final_done = parts_view(done@);
    let last = cur;
    done.push(last);
    assert(parts_view(done@) =~= final_done.push(last@));
    done
}

// ---------------------------------------------------------------------------
// Octets
// ---------------------------------------------------------------------------

/// `u8::from_str_radix(p, 16)`: an optional leading '+', then one or more hex
/// digits whose value fits in a byte.
pub open spec fn radix16_u8(p: Seq<char>) -> Option<u8> {
    let ds = if p.len() > 0 && p[0] == '+' {
        p.drop_first()
    } else {
        p
    };
    if ds.len() > 0 && all_hex(ds) && hex_value(ds) <= 255 {
        Some(hex_value(ds) as u8)
    } else {
        None
    }
}

proof fn lemma_hex_value_nonneg(ds: Seq<char>)
    requires
        all_hex(ds),
    ensures
        hex_value(ds) >= 0,
    decreases ds.len(),
{
    if ds.len() > 0 {
        assert(all_hex(ds.drop_last())) by {
            assert forall|i: int| 0 <= i < ds.drop_last().len() implies #[trigger] is_hex_char(
                ds.drop_last()[i],
            ) by {
                assert(is_hex_char(ds[i]));
            }
        }
        lemma_hex_value_nonneg(ds.drop_last());
        assert(is_hex_char(ds[ds.len() - 1]));
    }
}

/// Parse one octet as `u8::from_str_radix(p, 16)` does.
pub fn parse_octet(p: &Vec<char>) -> (r: Option<u8>)
    ensures
        r == radix16_u8(p@),
{
    let ghost ds = if p@.len() > 0 && p@[0] == '+' {
        p@.drop_first()
    } else {
        p@
    };
    let start: usize = if p.len() > 0 && p[0] == '+' {
        1
    } else {
        0
    };
    assert(ds =~= p@.subrange(start as int, p@.len() as int));
    if start >= p.len() {
        return None;
    }
    let mut v: u32 = 0;
    let mut overflow = false;
    let mut k: usize = start;
    while k < p.len()
        invariant
            start <= k <= p@.len(),
            ds == p@.subrange(start as int, p@.len() as int),
            ds == (if p@.len() > 0 && p@[0] == '+' {
                p@.drop_first()
            } else {
                p@
            }),
            all_hex(p@.subrange(start as int, k as int)),
            overflow ==> hex_value(p@.subrange(start as int, k as int)) > 255,
            !overflow ==> v as int == hex_value(p@.subrange(start as int, k as int)) && v <= 255,
        decreases p@.len() - k,
    {
        let ghost pre = p@.subrange(start as int, k as int);
        let ghost post = p@.subrange(start as int, k + 1);
        assert(post.drop_last() =~= pre);
        assert(post.last() == p@[k as int]);
        match hex_char_to_value(p[k]) {
            None => {
                assert(!all_hex(ds)) by {
                    assert(ds[k - start] == p@[k as int]);
                    assert(!is_hex_char(ds[k - start]));
                }
                return None;
            },
            Some(d) => {
                proof {
                    assert(all_hex(post)) by {
                        assert forall|i: int| 0 <= i < post.len() implies #[trigger] is_hex_char(
                            post[i],
                        ) by {
                            if i < pre.len() {
                                assert(post[i] == pre[i]);
                            }
                        }
                    }
                    lemma_hex_value_nonneg(pre);
                }
                if !overflow {
                    let nv = v * 16 + d as u32;
                    if nv > 255 {
                        overflow = true;
                    } else {
                        v = nv;
                    }
                }
            },
        }
        k += 1;
    }
    assert(p@.subrange(start as int, p@.len() as int) == ds);
    if overflow {
        None
    } else {
        Some(v as u8)
    }
}

// ---------------------------------------------------------------------------
// MAC parsing
// ---------------------------------------------------------------------------

/// The MAC a text denotes: exactly six ':'-separated parts, each parsed by
/// `u8::from_str_radix(part, 16)`.
pub open spec fn parsed_mac(s: Seq<char>) -> Option<Seq<u8>> {
    let parts = split_colon(s);
    if parts.len() == 6 && (forall|i: int| 0 <= i < 6 ==> #[trigger] radix16_u8(parts[i]) is Some) {
        Some(Seq::new(6, |i: int| radix16_u8(parts[i])->0))
    } else {
        None
    }
}

/// Why a MAC text was refused.
#[derive(Debug, Clone, Copy, PartialEq, Eq, Structural)]
pub enum MacError {
    /// The text does not have exactly six ':'-separated parts (count given).
    OctetCount(usize),
    /// Part `i` is not a hex byte.
    Octet(usize),
    /// Part `i` is not exactly two hex digits.
    OctetShape(usize),
}

/// The first part among `i..6` that is not a hex byte (6 when none).
pub open spec fn first_bad_octet(parts: Seq<Seq<char>>, i: int) -> int
    decreases 6 - i,
{
    if i < 0 || i >= 6 {
        6
    } else if radix16_u8(parts[i]) is None {
        i
    } else {
        first_bad_octet(parts, i + 1)
    }
}

/// The error a MAC text that does not parse meets: the wrong part count,
/// else the first part that is not a hex byte.
pub open spec fn mac_error(s: Seq<char>) -> MacError {
    let parts = split_colon(s);
    if parts.len() != 6 {
        MacError::OctetCount(parts.len() as usize)
    } else {
        MacError::Octet(first_bad_octet(parts, 0) as usize)
    }
}

/// Parse "aa:bb:cc:dd:ee:ff" (each octet as `u8::from_str_radix(_, 16)`).
pub fn parse_mac_chars(cs: &Vec<char>) -> (r: Result<[u8; 6], MacError>)
    ensures
        r is Ok <==> parsed_mac(cs@) is Some,
        r matches Ok(m) ==> parsed_mac(cs@) == Some(m@),
        r matches Err(e) ==> (e matches MacError::OctetCount(n) <==> split_colon(cs@).len() != 6),
        r matches Err(MacError::OctetCount(n)) ==> n == split_colon(cs@).len(),
        r matches Err(MacError::Octet(i)) ==> i < 6 && radix16_u8(split_colon(cs@)[i as int]) is None
            && forall|j: int| 0 <= j < i ==> #[trigger] radix16_u8(split_colon(cs@)[j]) is Some,
        !(r matches Err(MacError::OctetShape(_))),
        r matches Err(e) ==> e == mac_error(cs@),
{
    let parts = split_colon_exec(cs);
    let ghost pv = split_colon(cs@);
    if parts.len() != 6 {
        return Err(MacError::OctetCount(parts.len()));
    }
    let mut mac = [0u8; 6];
    let mut i: usize = 0;
    while i < 6
        invariant
            parts@.len() == 6,
            pv == parts_view(parts@),
            pv == split_colon(cs@),
            i <= 6,
            forall|j: int| 0 <= j < i ==> #[trigger] radix16_u8(pv[j]) == Some(mac@[j]),
            first_bad_octet(pv, 0) == first_bad_octet(pv, i as int),
        decreases 6 - i,
    {
        assert(parts@[i as int]@ == pv[i as int]);
        match parse_octet(&parts[i]) {
            Some(b) => {
                mac[i] = b;
            },
            None => {
                return Err(MacError::Octet(i));
            },
        }
        i += 1;
    }
    assert(mac@ =~= Seq::new(6, |i: int| radix16_u8(pv[i])->0));
    Ok(mac)
}

/// Whether `s` is six ':'-separated parts of exactly two hex digits.
pub open spec fn strict_mac_text(s: Seq<char>) -> bool {
    let parts = split_colon(s);
    parts.len() == 6 && forall|i: int|
        0 <= i < 6 ==> (#[trigger] parts[i]).len() == 2 && all_hex(parts[i])
}

fn is_two_hex(p: &Vec<char>) -> (b: bool)
    ensures
        b == (p@.len() == 2 && all_hex(p@)),
{
    if p.len() != 2 {
        return false;
    }
    let a = hex_char_to_value(p[0]);
    let c = hex_char_to_value(p[1]);
    proof {
        if a is Some && c is Some {
            assert forall|i: int| 0 <= i < p@.len() implies #[trigger] is_hex_char(p@[i]) by {
                if i == 0 {
                } else {
                }
            }
        }
    }
    a.is_some() && c.is_some()
}

/// Check that a MAC text is six colon-separated two-digit hex octets
/// (either case); no normalization.
pub fn check_strict_mac(cs: &Vec<char>) -> (r: Result<(), MacError>)
    ensures
        r is Ok <==> strict_mac_text(cs@),
        r matches Err(MacError::OctetCount(n)) ==> n == split_colon(cs@).len() && n != 6,
        r matches Err(MacError::OctetShape(i)) ==> i < 6 && split_colon(cs@).len() == 6,
        !(r matches Err(MacError::Octet(_))),
{
    let parts = split_colon_exec(cs);
    let ghost pv = split_colon(cs@);
    if parts.len() != 6 {
        return Err(MacError::OctetCount(parts.len()));
    }
    let mut i: usize = 0;
    while i < 6
        invariant
            parts@.len() == 6,
            pv == parts_view(parts@),
            pv == split_colon(cs@),
            i <= 6,
            forall|j: int| 0 <= j < i ==> (#[trigger] pv[j]).len() == 2 && all_hex(pv[j]),
        decreases 6 - i,
    {
        assert(parts@[i as int]@ == pv[i as int]);
        if !is_two_hex(&parts[i]) {
            return Err(MacError::OctetShape(i));
        }
        i += 1;
    }
    Ok(())
}

/// The two characters of MAC byte `j` in its text form.
pub open spec fn octet_text(b: u8) -> Seq<char> {
    seq![hex_digit_char(b as int / 16), hex_digit_char(b as int % 16)]
}

/// What splitting the first `k` characters of a MAC's text gives.
spec fn mac_prefix_parts(m: Seq<u8>, k: int) -> Seq<Seq<char>> {
    Seq::new(
        (k / 3 + 1) as nat,
        |j: int|
            if j < k / 3 {
                octet_text(m[j])
            } else {
                mac_text(m).subrange(3 * (k / 3), k)
            },
    )
}

proof fn lemma_mac_prefix_split(m: Seq<u8>, k: int)
    requires
        m.len() == 6,
        0 <= k <= 17,
    ensures
        split_colon(mac_text(m).take(k)) == mac_prefix_parts(m, k),
    decreases k,
{
    let t = mac_text(m);
    if k == 0 {
        assert(t.take(0) =~= Seq::<char>::empty());
        assert(mac_prefix_parts(m, 0) =~= seq![Seq::<char>::empty()]);
    } else {
        lemma_mac_prefix_split(m, k - 1);
        let prev = mac_prefix_parts(m, k - 1);
        assert(t.take(k).drop_last() =~= t.take(k - 1));
        assert(t.take(k).last() == t[k - 1]);
        if (k - 1) % 3 == 2 {
            let q = (k - 1) / 3;
            assert(k / 3 == q + 1);
            assert(t[k - 1] == ':');
            assert(t.subrange(3 * q, k - 1) =~= octet_text(m[q]));
            assert(t.subrange(3 * (k / 3), k) =~= Seq::<char>::empty());
            assert(mac_prefix_parts(m, k) =~~= prev.push(Seq::<char>::empty()));
        } else {
            assert(t[k - 1] != ':') by {
                let c = t[k - 1];
                let b = m[(k - 1) / 3] as int;
                assert(0 <= b / 16 < 16 && 0 <= b % 16 < 16);
            }
            assert(k / 3 == (k - 1) / 3);
            assert(t.subrange(3 * (k / 3), k) =~= t.subrange(3 * (k / 3), k - 1).push(t[k - 1]));
            assert(mac_prefix_parts(m, k) =~~= prev.update(
                prev.len() - 1,
                prev.last().push(t[k - 1]),
            ));
        }
    }
}

proof fn lemma_octet_text_parses(b: u8)
    ensures
        radix16_u8(octet_text(b)) == Some(b),
{
    let t = octet_text(b);
    let hi = b as int / 16;
    let lo = b as int % 16;
    assert(0 <= hi < 16 && 0 <= lo < 16);
    assert(is_hex_char(t[0]) && hex_char_value(t[0]) == hi);
    assert(is_hex_char(t[1]) && hex_char_value(t[1]) == lo);
    assert(t[0] != '+');
    assert(all_hex(t));
    assert(t.drop_last() =~= seq![t[0]]);
    assert(seq![t[0]].drop_last() =~= Seq::<char>::empty());
    reveal_with_fuel(hex_value, 3);
    assert(hex_value(seq![t[0]]) == hi);
    assert(hex_value(t) == 16 * hi + lo);
}

/// Law: the text of a MAC parses back to the same MAC.
pub proof fn lemma_mac_text_roundtrip(m: Seq<u8>)
    requires
        m.len() == 6,
    ensures
        parsed_mac(mac_text(m)) == Some(m),
        strict_mac_text(mac_text(m)),
{
    lemma_mac_prefix_split(m, 17);
    let t = mac_text(m);
    assert(t.take(17) =~= t);
    let parts = split_colon(t);
    assert(parts.len() == 6);
    assert forall|i: int| 0 <= i < 6 implies #[trigger] parts[i] == octet_text(m[i]) by {
        if i == 5 {
            assert(t.subrange(15, 17) =~= octet_text(m[5]));
        }
    }
    assert forall|i: int| 0 <= i < 6 implies #[trigger] radix16_u8(parts[i]) == Some(m[i]) by {
        lemma_octet_text_parses(m[i]);
    }
    assert forall|i: int| 0 <= i < 6 implies (#[trigger] parts[i]).len() == 2 && all_hex(parts[i]) by {
        lemma_octet_text_parses(m[i]);
    }
    assert(Seq::new(6, |i: int| radix16_u8(parts[i])->0) =~= m);
}

// ---------------------------------------------------------------------------
// Colors
// ---------------------------------------------------------------------------

/// The text with every leading '#' removed.
pub open spec fn strip_hashes(s: Seq<char>) -> Seq<char>
    decreases s.len(),
{
    if s.len() > 0 && s[0] == '#' {
        strip_hashes(s.drop_first())
    } else {
        s
    }
}

/// The color a text denotes: after leading '#'s, exactly six hex digits.
pub open spec fn parsed_color(s: Seq<char>) -> Option<Seq<u8>> {
    let t = strip_hashes(s);
    if t.len() == 6 && all_hex(t) {
        Some(
            seq![
                hex_value(t.subrange(0, 2)) as u8,
                hex_value(t.subrange(2, 4)) as u8,
                hex_value(t.subrange(4, 6)) as u8,
            ],
        )
    } else {
        None
    }
}

fn pair_value(a: char, b: char) -> (v: u8)
    requires
        is_hex_char(a),
        is_hex_char(b),
    ensures
        v as int == hex_value(seq![a, b]),
{
    let x = hex_char_to_value(a).unwrap();
    let y = hex_char_to_value(b).unwrap();
    proof {
        reveal_with_fuel(hex_value, 3);
        assert(seq![a, b].drop_last() =~= seq![a]);
        assert(seq![a].drop_last() =~= Seq::<char>::empty());
    }
    x * 16 + y
}

/// Parse a color written as six hex digits, optionally after '#'s ("FF0000").
pub fn parse_color_chars(cs: &Vec<char>) -> (r: Option<[u8; 3]>)
    ensures
        r is Some <==> parsed_color(cs@) is Some,
        r matches Some(c) ==> parsed_color(cs@) == Some(c@),
{
    let mut start: usize = 0;
    assert(cs@.subrange(0, cs@.len() as int) =~= cs@);
    while start < cs.len() && cs[start] == '#'
        invariant
            start <= cs@.len(),
            strip_hashes(cs@) == strip_hashes(cs@.subrange(start as int, cs@.len() as int)),
        decreases cs@.len() - start,
    {
        let ghost rest = cs@.subrange(start as int, cs@.len() as int);
        assert(rest.drop_first() =~= cs@.subrange(start + 1, cs@.len() as int));
        start += 1;
    }
    let ghost t = cs@.subrange(start as int, cs@.len() as int);
    assert(strip_hashes(t) == t);
    if cs.len() - start != 6 {
        return None;
    }
    let mut k: usize = start;
    while k < cs.len()
        invariant
            start <= k <= cs@.len(),
            t == cs@.subrange(start as int, cs@.len() as int),
            strip_hashes(cs@) == t,
            t.len() == 6,
            forall|i: int| 0 <= i < k - start ==> #[trigger] is_hex_char(t[i]),
        decreases cs@.len() - k,
    {
        if hex_char_to_value(cs[k]).is_none() {
            assert(!is_hex_char(t[k - start]));
            return None;
        }
        k += 1;
    }
    assert(all_hex(t));
    assert(is_hex_char(t[0]) && is_hex_char(t[1]) && is_hex_char(t[2]));
    assert(is_hex_char(t[3]) && is_hex_char(t[4]) && is_hex_char(t[5]));
    let r = [
        pair_value(cs[start], cs[start + 1]),
        pair_value(cs[start + 2], cs[start + 3]),
        pair_value(cs[start + 4], cs[start + 5]),
    ];
    assert(t.subrange(0, 2) =~= seq![cs@[start as int], cs@[start + 1]]);
    assert(t.subrange(2, 4) =~= seq![cs@[start + 2], cs@[start + 3]]);
    assert(t.subrange(4, 6) =~= seq![cs@[start + 4], cs@[start + 5]]);
    assert(r@ =~= parsed_color(cs@)->0);
    Some(r)
}

} // verus!
