//! Verified string helpers: comparisons, ASCII case folding, searching,
//! digit parsing, and the broker-address grammar.

use vstd::prelude::*;

verus! {

/// Relies on the standard library: `String::push` appends exactly one
/// character.
pub assume_specification[ String::push ](s: &mut String, c: char)
    ensures
        final(s)@ == old(s)@.push(c),
;

/// Relies on the standard library: `char::from_u32` converts exactly the
/// Unicode scalar values, surrogates and out-of-range values excluded.
pub assume_specification[ char::from_u32 ](i: u32) -> (r: Option<char>)
    ensures
        (i < 0xD800 || (0xE000 <= i && i <= 0x10FFFF)) <==> r is Some,
        r matches Some(c) ==> c as u32 == i,
;

/// Whether two strings hold the same characters.
pub fn str_eq(a: &str, b: &str) -> (r: bool)
    ensures
        r == (a@ == b@),
{
    let n = a.unicode_len();
    if n != b.unicode_len() {
        return false;
    }
    let mut i: usize = 0;
    while i < n
        invariant
            n == a@.len(),
            n == b@.len(),
            i <= n,
            forall|j: int| 0 <= j < i ==> a@[j] == b@[j],
        decreases n - i,
    {
        if a.get_char(i) != b.get_char(i) {
            return false;
        }
        i = i + 1;
    }
    proof {
        assert(a@ =~= b@);
    }
    true
}

/// The code point of a character after ASCII lowercasing: letters A to Z
/// move to their lowercase forms, every other character stays.
pub open spec fn sp_lower_code(c: char) -> u32 {
    if 65 <= c as u32 <= 90 {
        (c as u32 + 32) as u32
    } else {
        c as u32
    }
}

/// Two character sequences are equal up to ASCII case.
pub open spec fn sp_eq_lower(a: Seq<char>, b: Seq<char>) -> bool {
    a.len() == b.len() && forall|i: int|
        0 <= i < a.len() ==> sp_lower_code(a[i]) == sp_lower_code(b[i])
}

fn lower_char(c: char) -> (r: char)
    ensures
        r as u32 == sp_lower_code(c),
{
    let u = c as u32;
    if 65 <= u && u <= 90 {
        match char::from_u32(u + 32) {
            Some(l) => {
                proof {
                    assert(l as u32 == u + 32);
                }
                l
            },
            None => {
                proof {
                    assert(false);
                }
                c
            },
        }
    } else {
        c
    }
}

/// ASCII-lowercases a string: letters A to Z are folded, every other
/// character is kept.
pub fn ascii_lower(s: &str) -> (r: String)
    ensures
        r@.len() == s@.len(),
        forall|i: int| 0 <= i < s@.len() ==> #[trigger] (r@[i] as u32) == sp_lower_code(s@[i]),
{
    let n = s.unicode_len();
    let mut r = String::new();
    let mut i: usize = 0;
    while i < n
        invariant
            n == s@.len(),
            i <= n,
            r@.len() == i,
            forall|j: int| 0 <= j < i ==> #[trigger] (r@[j] as u32) == sp_lower_code(s@[j]),
        decreases n - i,
    {
        let c = s.get_char(i);
        r.push(lower_char(c));
        i = i + 1;
    }
    r
}

/// Whether two strings are equal up to ASCII case.
pub fn eq_ignore_ascii_case(a: &str, b: &str) -> (r: bool)
    ensures
        r == sp_eq_lower(a@, b@),
{
    let n = a.unicode_len();
    if n != b.unicode_len() {
        return false;
    }
    let mut i: usize = 0;
    while i < n
        invariant
            n == a@.len(),
            n == b@.len(),
            i <= n,
            forall|j: int| 0 <= j < i ==> sp_lower_code(a@[j]) == sp_lower_code(b@[j]),
        decreases n - i,
    {
        if lower_char(a.get_char(i)) as u32 != lower_char(b.get_char(i)) as u32 {
            return false;
        }
        i = i + 1;
    }
    true
}

/// Whether the needle occurs at position `i` of the haystack.
pub open spec fn sp_match_at(h: Seq<char>, n: Seq<char>, i: int) -> bool {
    forall|j: int| 0 <= j < n.len() ==> h[i + j] == n[j]
}

/// Whether the needle occurs anywhere in the haystack.
pub open spec fn sp_contains(h: Seq<char>, n: Seq<char>) -> bool {
    exists|i: int| 0 <= i <= h.len() - n.len() && sp_match_at(h, n, i)
}

fn match_at(h: &str, n: &str, i: usize) -> (r: bool)
    requires
        i + n@.len() <= h@.len(),
    ensures
        r == sp_match_at(h@, n@, i as int),
{
    let hl = h.unicode_len();
    let m = n.unicode_len();
    let mut j: usize = 0;
    while j < m
        invariant
            hl == h@.len(),
            m == n@.len(),
            i + m <= hl,
            j <= m,
            forall|k: int| 0 <= k < j ==> h@[i + k] == n@[k],
        decreases m - j,
    {
        if h.get_char(i + j) != n.get_char(j) {
            return false;
        }
        j = j + 1;
    }
    true
}

/// Whether the haystack holds the needle as a contiguous substring.
pub fn contains_str(h: &str, n: &str) -> (r: bool)
    ensures
        r == sp_contains(h@, n@),
{
    let hl = h.unicode_len();
    let nl = n.unicode_len();
    if nl > hl {
        proof {
            assert(!sp_contains(h@, n@));
        }
        return false;
    }
    let mut i: usize = 0;
    while i <= hl - nl
        invariant
            hl == h@.len(),
            nl == n@.len(),
            nl <= hl,
            i <= hl - nl + 1,
            forall|k: int| 0 <= k < i ==> !sp_match_at(h@, n@, k),
        decreases hl - nl + 1 - i,
    {
        if match_at(h, n, i) {
            return true;
        }
        i = i + 1;
    }
    false
}

/// Whether the string begins with the given prefix.
pub fn starts_with_str(h: &str, n: &str) -> (r: bool)
    ensures
        r == (n@.len() <= h@.len() && sp_match_at(h@, n@, 0)),
{
    let hl = h.unicode_len();
    let nl = n.unicode_len();
    if nl > hl {
        return false;
    }
    match_at(h, n, 0)
}

/// The position of the last occurrence of a character, if any.
pub fn find_last(s: &str, c: char) -> (r: Option<usize>)
    ensures
        r is Some <==> s@.index_of_last(c) is Some,
        r matches Some(i) ==> s@.index_of_last(c) == Some(i as int),
{
    proof {
        s@.index_of_last_ensures(c);
    }
    let n = s.unicode_len();
    let mut i: usize = n;
    while i > 0
        invariant
            n == s@.len(),
            i <= n,
            forall|j: int| i <= j < n ==> s@[j] != c,
        decreases i,
    {
        i = i - 1;
        if s.get_char(i) == c {
            proof {
                s@.index_of_last_ensures(c);
                match s@.index_of_last(c) {
                    Some(k) => {
                        if k < i {
                            assert(s@[i as int] != c);
                        }
                        if k > i {
                            assert(s@[k] != c);
                        }
                    },
                    None => {
                        assert(s@[i as int] != c);
                    },
                }
            }
            return Some(i);
        }
    }
    proof {
        match s@.index_of_last(c) {
            Some(k) => {
                assert(s@[k] != c);
            },
            None => {},
        }
    }
    None
}

/// Whether the character is an ASCII decimal digit.
pub open spec fn sp_is_digit(c: char) -> bool {
    48 <= c as int <= 57
}

/// The number an all-digit sequence denotes.
pub open spec fn sp_digits_val(s: Seq<char>) -> int
    decreases s.len(),
{
    if s.len() == 0 {
        0
    } else {
        sp_digits_val(s.drop_last()) * 10 + (s.last() as int - 48)
    }
}

/// Appending digits never shrinks the denoted number.
proof fn lemma_digits_prefix_le(s: Seq<char>, i: int)
    requires
        0 <= i <= s.len(),
        forall|j: int| 0 <= j < s.len() ==> sp_is_digit(s[j]),
    ensures
        0 <= sp_digits_val(s.take(i)) <= sp_digits_val(s),
    decreases s.len() - i,
{
    if i == s.len() {
        assert(s.take(i) =~= s);
        lemma_digits_nonneg(s);
    } else {
        lemma_digits_prefix_le(s, i + 1);
        let t = s.take(i + 1);
        assert(t.drop_last() =~= s.take(i));
        assert(t.last() == s[i]);
        lemma_digits_nonneg(s.take(i));
        assert(sp_digits_val(s.take(i)) <= sp_digits_val(s.take(i)) * 10 + (s[i] as int - 48))
            by (nonlinear_arith)
            requires
                sp_digits_val(s.take(i)) >= 0,
                48 <= s[i] as int,
        ;
    }
}

proof fn lemma_digits_nonneg(s: Seq<char>)
    requires
        forall|j: int| 0 <= j < s.len() ==> sp_is_digit(s[j]),
    ensures
        sp_digits_val(s) >= 0,
    decreases s.len(),
{
    if s.len() > 0 {
        lemma_digits_nonneg(s.drop_last());
        assert(sp_digits_val(s.drop_last()) * 10 >= 0) by (nonlinear_arith)
            requires
                sp_digits_val(s.drop_last()) >= 0,
        ;
    }
}

/// Parses an unsigned 16-bit number: defined exactly for the nonempty
/// all-digit strings whose value fits.
pub fn parse_u16(s: &str) -> (r: Option<u16>)
    ensures
        r is Some <==> (s@.len() > 0 && (forall|j: int| 0 <= j < s@.len() ==> sp_is_digit(s@[j]))
            && sp_digits_val(s@) <= 65535),
        r matches Some(v) ==> v == sp_digits_val(s@),
{
    let n = s.unicode_len();
    if n == 0 {
        return None;
    }
    let mut acc: u32 = 0;
    let mut i: usize = 0;
    while i < n
        invariant
            n == s@.len(),
            i <= n,
            forall|j: int| 0 <= j < i ==> sp_is_digit(s@[j]),
            acc == sp_digits_val(s@.take(i as int)),
            acc <= 65535,
        decreases n - i,
    {
        let c = s.get_char(i);
        let u = c as u32;
        if u < 48 || u > 57 {
            return None;
        }
        proof {
            assert(s@.take(i + 1).drop_last() =~= s@.take(i as int));
            assert(s@.take(i + 1).last() == s@[i as int]);
        }
        let next: u32 = acc * 10 + (u - 48);
        if next > 65535 {
            proof {
                assert forall|j: int| 0 <= j < i + 1 implies sp_is_digit(#[trigger] s@.take(
                    i + 1,
                )[j]) by {}
                lemma_digits_prefix_le(s@.take(i + 1), i + 1);
                let full = s@;
                if forall|j: int| 0 <= j < full.len() ==> sp_is_digit(full[j]) {
                    lemma_digits_prefix_le(full, i + 1);
                    assert(full.take(i + 1) =~= s@.take(i + 1));
                }
            }
            return None;
        }
        acc = next;
        i = i + 1;
    }
    proof {
        assert(s@.take(n as int) =~= s@);
    }
    Some(acc as u16)
}

/// The remote broker address after the scheme prefix.
pub open spec fn sp_broker_rest(u: Seq<char>) -> Seq<char> {
    u.subrange(7, u.len() as int)
}

/// Whether the address carries the `mqtt://` scheme.
pub open spec fn sp_has_mqtt_scheme(u: Seq<char>) -> bool {
    u.len() >= 7 && sp_match_at(u, "mqtt://"@, 0)
}

/// The host and port of a broker address: the scheme prefix is dropped,
/// the part after the last colon is the port when it parses as one, and
/// 1883 stands in everywhere else.
pub open spec fn sp_broker_parts(u: Seq<char>) -> (Seq<char>, u16) {
    if !sp_has_mqtt_scheme(u) {
        (u, 1883u16)
    } else {
        let rest = sp_broker_rest(u);
        match rest.index_of_last(':') {
            None => (rest, 1883u16),
            Some(i) => {
                let port_digits = rest.subrange(i + 1, rest.len() as int);
                let port = if port_digits.len() > 0 && (forall|j: int|
                    0 <= j < port_digits.len() ==> sp_is_digit(port_digits[j]))
                    && sp_digits_val(port_digits) <= 65535 {
                    sp_digits_val(port_digits) as u16
                } else {
                    1883u16
                };
                (rest.subrange(0, i), port)
            },
        }
    }
}

/// Splits a broker address into hostname and port.
pub fn parse_broker_url(url: &str) -> (r: (String, u16))
    ensures
        (r.0@, r.1) == sp_broker_parts(url@),
{
    proof {
        reveal_strlit("mqtt://");
    }
    if !starts_with_str(url, "mqtt://") {
        return (url.to_owned(), 1883);
    }
    let n = url.unicode_len();
    let rest = url.substring_char(7, n);
    proof {
        assert(rest@ =~= sp_broker_rest(url@));
    }
    let rl = rest.unicode_len();
    match find_last(rest, ':') {
        None => (rest.to_owned(), 1883),
        Some(i) => {
            proof {
                rest@.index_of_last_ensures(':');
            }
            let host = rest.substring_char(0, i);
            let port_str = rest.substring_char(i + 1, rl);
            proof {
                assert(port_str@ =~= rest@.subrange(i + 1, rest@.len() as int));
                assert(host@ =~= rest@.subrange(0, i as int));
            }
            let port = match parse_u16(port_str) {
                Some(p) => p,
                None => 1883,
            };
            (host.to_owned(), port)
        },
    }
}


/// Lexicographic order on character sequences, by code point, with a
/// prefix before its extensions.
pub open spec fn sp_str_le(a: Seq<char>, b: Seq<char>) -> bool
    decreases a.len(),
{
    if a.len() == 0 {
        true
    } else if b.len() == 0 {
        false
    } else if (a.first() as u32) < (b.first() as u32) {
        true
    } else if (a.first() as u32) > (b.first() as u32) {
        false
    } else {
        sp_str_le(a.drop_first(), b.drop_first())
    }
}

/// The order is total: two sequences compare one way or the other.
pub proof fn lemma_str_le_total(a: Seq<char>, b: Seq<char>)
    ensures
        sp_str_le(a, b) || sp_str_le(b, a),
    decreases a.len(),
{
    if a.len() > 0 && b.len() > 0 && (a.first() as u32) == (b.first() as u32) {
        lemma_str_le_total(a.drop_first(), b.drop_first());
    }
}

/// The order is transitive.
pub proof fn lemma_str_le_trans(a: Seq<char>, b: Seq<char>, c: Seq<char>)
    requires
        sp_str_le(a, b),
        sp_str_le(b, c),
    ensures
        sp_str_le(a, c),
    decreases a.len(),
{
    if a.len() > 0 {
        let au = a.first() as u32;
        let bu = b.first() as u32;
        let cu = c.first() as u32;
        if au == cu {
            assert(au == bu);
            lemma_str_le_trans(a.drop_first(), b.drop_first(), c.drop_first());
        }
    }
}

/// Compares two strings in lexicographic code-point order.
pub fn str_le(a: &str, b: &str) -> (r: bool)
    ensures
        r == sp_str_le(a@, b@),
{
    let al = a.unicode_len();
    let bl = b.unicode_len();
    proof {
        assert(a@.skip(0) =~= a@);
        assert(b@.skip(0) =~= b@);
    }
    let mut i: usize = 0;
    while i < al && i < bl
        invariant
            al == a@.len(),
            bl == b@.len(),
            i <= al,
            i <= bl,
            sp_str_le(a@, b@) == sp_str_le(a@.skip(i as int), b@.skip(i as int)),
        decreases al - i,
    {
        let ca = a.get_char(i);
        let cb = b.get_char(i);
        proof {
            assert(a@.skip(i as int).len() > 0);
            assert(b@.skip(i as int).len() > 0);
            assert(a@.skip(i as int).first() == a@[i as int]);
            assert(b@.skip(i as int).first() == b@[i as int]);
            assert(a@.skip(i as int).drop_first() =~= a@.skip(i + 1));
            assert(b@.skip(i as int).drop_first() =~= b@.skip(i + 1));
        }
        if (ca as u32) < (cb as u32) {
            return true;
        }
        if (ca as u32) > (cb as u32) {
            return false;
        }
        i = i + 1;
    }
    proof {
        if i >= al {
            assert(a@.skip(i as int).len() == 0);
        } else {
            assert(b@.skip(i as int).len() == 0);
            assert(a@.skip(i as int).len() > 0);
        }
    }
    al <= bl
}

} // verus!
