//! Byte-level ASCII helpers: the character classes of the RFC 7230 wire
//! grammar, case folding, whitespace trimming and comma splitting, all
//! specified over `Seq<u8>`.

use vstd::prelude::*;

verus! {

/// A byte of an HTTP token, RFC 7230 section 3.2.6:
/// `[-!#$%&'*+.^_`|~0-9a-zA-Z]`.
pub open spec fn is_token_byte(b: u8) -> bool {
    ||| b == '-' as u8
    ||| b == '!' as u8
    ||| b == '#' as u8
    ||| b == '$' as u8
    ||| b == '%' as u8
    ||| b == '&' as u8
    ||| b == '\'' as u8
    ||| b == '*' as u8
    ||| b == '+' as u8
    ||| b == '.' as u8
    ||| b == '^' as u8
    ||| b == '_' as u8
    ||| b == '`' as u8
    ||| b == '|' as u8
    ||| b == '~' as u8
    ||| '0' as u8 <= b <= '9' as u8
    ||| 'A' as u8 <= b <= 'Z' as u8
    ||| 'a' as u8 <= b <= 'z' as u8
}

/// A printable ASCII byte, the class `[ -~]`.
pub open spec fn is_printable_byte(b: u8) -> bool {
    0x20 <= b <= 0x7e
}

/// A visible ASCII byte, the class `[\x21-\x7e]`.
pub open spec fn is_vchar_byte(b: u8) -> bool {
    0x21 <= b <= 0x7e
}

/// A nonempty run of visible ASCII bytes: the grammar of request
/// targets.
pub open spec fn is_vchar_run(s: Seq<u8>) -> bool {
    s.len() > 0 && (forall|i: int| 0 <= i < s.len() ==> is_vchar_byte(#[trigger] s[i]))
}

/// A decimal digit byte.
pub open spec fn is_digit_byte(b: u8) -> bool {
    '0' as u8 <= b <= '9' as u8
}

/// A hexadecimal digit byte.
pub open spec fn is_hex_digit_byte(b: u8) -> bool {
    ||| '0' as u8 <= b <= '9' as u8
    ||| 'a' as u8 <= b <= 'f' as u8
    ||| 'A' as u8 <= b <= 'F' as u8
}

/// An ASCII whitespace byte, as `char::is_whitespace` classifies the
/// ASCII range: tab, line feed, vertical tab, form feed, carriage
/// return and space.
pub open spec fn is_ws_byte(b: u8) -> bool {
    b == 0x09 || b == 0x0a || b == 0x0b || b == 0x0c || b == 0x0d || b == 0x20
}

/// A nonempty run of token bytes: the grammar of header field names.
pub open spec fn is_token(s: Seq<u8>) -> bool {
    s.len() > 0 && (forall|i: int| 0 <= i < s.len() ==> is_token_byte(#[trigger] s[i]))
}

/// A nonempty run of printable ASCII bytes: the grammar of header
/// field values.
pub open spec fn is_printable(s: Seq<u8>) -> bool {
    s.len() > 0 && (forall|i: int| 0 <= i < s.len() ==> is_printable_byte(#[trigger] s[i]))
}

/// A nonempty run of decimal digits.
pub open spec fn is_digits(s: Seq<u8>) -> bool {
    s.len() > 0 && (forall|i: int| 0 <= i < s.len() ==> is_digit_byte(#[trigger] s[i]))
}

/// ASCII lower casing of one byte.
pub open spec fn lower_byte(b: u8) -> u8 {
    if 'A' as u8 <= b <= 'Z' as u8 {
        (b + 0x20) as u8
    } else {
        b
    }
}

/// ASCII lower casing of a byte sequence.
pub open spec fn lower_seq(s: Seq<u8>) -> Seq<u8> {
    s.map_values(|b: u8| lower_byte(b))
}

/// ASCII upper casing of one byte.
pub open spec fn upper_byte(b: u8) -> u8 {
    if 'a' as u8 <= b <= 'z' as u8 {
        (b - 0x20) as u8
    } else {
        b
    }
}

/// ASCII upper casing of a byte sequence.
pub open spec fn upper_seq(s: Seq<u8>) -> Seq<u8> {
    s.map_values(|b: u8| upper_byte(b))
}

/// How many whitespace bytes `s` starts with.
pub open spec fn leading_ws(s: Seq<u8>) -> nat
    decreases s.len(),
{
    if s.len() == 0 || !is_ws_byte(s[0]) {
        0
    } else {
        1 + leading_ws(s.drop_first())
    }
}

/// How many whitespace bytes `s` ends with.
pub open spec fn trailing_ws(s: Seq<u8>) -> nat
    decreases s.len(),
{
    if s.len() == 0 || !is_ws_byte(s.last()) {
        0
    } else {
        1 + trailing_ws(s.drop_last())
    }
}

/// `s` with leading and trailing ASCII whitespace removed.
pub open spec fn trim_seq(s: Seq<u8>) -> Seq<u8> {
    if leading_ws(s) == s.len() {
        Seq::empty()
    } else {
        s.subrange(leading_ws(s) as int, s.len() - trailing_ws(s))
    }
}

/// Index of the first occurrence of `b` in `s`, or `s.len()` when `b`
/// does not occur.
pub open spec fn find_byte(s: Seq<u8>, b: u8) -> nat
    decreases s.len(),
{
    if s.len() == 0 {
        0
    } else if s[0] == b {
        0
    } else {
        1 + find_byte(s.drop_first(), b)
    }
}

/// `find_byte` stays in bounds, misses `b` before the found index, and
/// hits `b` at it when `b` occurs at all.
pub proof fn lemma_find_byte_props(s: Seq<u8>, b: u8)
    ensures
        find_byte(s, b) <= s.len(),
        forall|j: int| 0 <= j < find_byte(s, b) ==> s[j] != b,
        find_byte(s, b) < s.len() ==> s[find_byte(s, b) as int] == b,
    decreases s.len(),
{
    if s.len() == 0 || s[0] == b {
    } else {
        lemma_find_byte_props(s.drop_first(), b);
        assert forall|j: int| 0 <= j < find_byte(s, b) implies s[j] != b by {
            if j > 0 {
                assert(s.drop_first()[j - 1] == s[j]);
            }
        }
    }
}

/// `s` split on commas; a sequence with no comma splits into the one
/// piece `s` itself, and each comma separates two pieces.
pub open spec fn split_commas(s: Seq<u8>) -> Seq<Seq<u8>>
    decreases s.len(),
    via split_commas_decreases
{
    let i = find_byte(s, ',' as u8);
    if i == s.len() {
        seq![s]
    } else {
        seq![s.take(i as int)] + split_commas(s.skip(i as int + 1))
    }
}

#[via_fn]
proof fn split_commas_decreases(s: Seq<u8>) {
    lemma_find_byte_props(s, ',' as u8);
}

/// Each piece of `s` split on commas, trimmed.
pub open spec fn split_commas_trimmed(s: Seq<u8>) -> Seq<Seq<u8>> {
    split_commas(s).map_values(|p: Seq<u8>| trim_seq(p))
}

pub proof fn lemma_leading_ws_bounds(s: Seq<u8>)
    ensures
        leading_ws(s) <= s.len(),
        forall|i: int| 0 <= i < leading_ws(s) ==> is_ws_byte(#[trigger] s[i]),
        leading_ws(s) < s.len() ==> !is_ws_byte(s[leading_ws(s) as int]),
    decreases s.len(),
{
    if s.len() == 0 || !is_ws_byte(s[0]) {
    } else {
        lemma_leading_ws_bounds(s.drop_first());
        assert forall|i: int| 0 <= i < leading_ws(s) implies is_ws_byte(#[trigger] s[i]) by {
            if i > 0 {
                assert(s.drop_first()[i - 1] == s[i]);
            }
        }
    }
}

pub proof fn lemma_trailing_ws_bounds(s: Seq<u8>)
    ensures
        trailing_ws(s) <= s.len(),
        forall|i: int| s.len() - trailing_ws(s) <= i < s.len() ==> is_ws_byte(#[trigger] s[i]),
        trailing_ws(s) < s.len() ==> !is_ws_byte(s[s.len() - trailing_ws(s) - 1]),
    decreases s.len(),
{
    if s.len() == 0 || !is_ws_byte(s.last()) {
    } else {
        lemma_trailing_ws_bounds(s.drop_last());
        assert forall|i: int| s.len() - trailing_ws(s) <= i < s.len() implies is_ws_byte(
            #[trigger] s[i],
        ) by {
            if i < s.len() - 1 {
                assert(s.drop_last()[i] == s[i]);
            }
        }
    }
}

/// The trim of a sequence, characterized by the position of its first
/// and last non-whitespace bytes.
pub proof fn lemma_trim_characterization(s: Seq<u8>, a: int, b: int)
    requires
        0 <= a <= b <= s.len(),
        forall|i: int| 0 <= i < a ==> is_ws_byte(#[trigger] s[i]),
        forall|i: int| b <= i < s.len() ==> is_ws_byte(#[trigger] s[i]),
        a < b ==> !is_ws_byte(s[a]) && !is_ws_byte(s[b - 1]),
        a == b ==> a == 0 && b == 0 || a == s.len(),
    ensures
        trim_seq(s) =~= s.subrange(a, b),
    decreases s.len(),
{
    lemma_leading_ws_bounds(s);
    lemma_trailing_ws_bounds(s);
    if a == b {
        if s.len() == 0 {
        } else {
            assert(leading_ws(s) == s.len()) by {
                if leading_ws(s) < s.len() {
                    assert(is_ws_byte(s[leading_ws(s) as int]));
                }
            }
        }
    } else {
        assert(leading_ws(s) == a) by {
            if leading_ws(s) < a {
                assert(is_ws_byte(s[leading_ws(s) as int]));
            }
            if leading_ws(s) > a {
                assert(is_ws_byte(s[a]));
            }
        }
        assert(trailing_ws(s) == s.len() - b) by {
            if trailing_ws(s) < s.len() - b {
                assert(is_ws_byte(s[s.len() - trailing_ws(s) - 1]));
            }
            if trailing_ws(s) > s.len() - b {
                assert(is_ws_byte(s[b - 1]));
            }
        }
    }
}

/// Lower casing one byte, as executable code.
pub fn lower_byte_exec(b: u8) -> (r: u8)
    ensures
        r == lower_byte(b),
{
    if ('A' as u8) <= b && b <= ('Z' as u8) {
        b + 0x20
    } else {
        b
    }
}

/// ASCII lower casing of a byte vector.
pub fn lower_vec(v: &[u8]) -> (r: Vec<u8>)
    ensures
        r@ =~= lower_seq(v@),
{
    let mut out: Vec<u8> = Vec::new();
    let mut i: usize = 0;
    while i < v.len()
        invariant
            i <= v@.len(),
            out@ =~= lower_seq(v@.take(i as int)),
        decreases v@.len() - i,
    {
        out.push(lower_byte_exec(v[i]));
        i = i + 1;
        proof {
            assert(v@.take(i as int).drop_last() =~= v@.take(i - 1));
        }
    }
    proof {
        assert(v@.take(v@.len() as int) =~= v@);
    }
    out
}

/// ASCII upper casing of a byte vector.
pub fn upper_vec(v: &[u8]) -> (r: Vec<u8>)
    ensures
        r@ =~= upper_seq(v@),
{
    let mut out: Vec<u8> = Vec::new();
    let mut i: usize = 0;
    while i < v.len()
        invariant
            i <= v@.len(),
            out@ =~= upper_seq(v@.take(i as int)),
        decreases v@.len() - i,
    {
        let b = v[i];
        if ('a' as u8) <= b && b <= ('z' as u8) {
            out.push(b - 0x20);
        } else {
            out.push(b);
        }
        i = i + 1;
        proof {
            assert(v@.take(i as int).drop_last() =~= v@.take(i - 1));
        }
    }
    proof {
        assert(v@.take(v@.len() as int) =~= v@);
    }
    out
}

/// Equality of two byte slices.
pub fn bytes_eq(a: &[u8], b: &[u8]) -> (r: bool)
    ensures
        r == (a@ =~= b@),
{
    if a.len() != b.len() {
        return false;
    }
    let mut i: usize = 0;
    while i < a.len()
        invariant
            a@.len() == b@.len(),
            i <= a@.len(),
            forall|j: int| 0 <= j < i ==> a@[j] == b@[j],
        decreases a@.len() - i,
    {
        if a[i] != b[i] {
            return false;
        }
        i = i + 1;
    }
    true
}

fn is_ws_exec(b: u8) -> (r: bool)
    ensures
        r == is_ws_byte(b),
{
    b == 0x09 || b == 0x0a || b == 0x0b || b == 0x0c || b == 0x0d || b == 0x20
}

/// `v` with leading and trailing ASCII whitespace removed.
pub fn trim_vec(v: &[u8]) -> (r: Vec<u8>)
    ensures
        r@ =~= trim_seq(v@),
{
    let mut a: usize = 0;
    while a < v.len() && is_ws_exec(v[a])
        invariant
            a <= v@.len(),
            forall|i: int| 0 <= i < a ==> is_ws_byte(#[trigger] v@[i]),
        decreases v@.len() - a,
    {
        a = a + 1;
    }
    if a == v.len() {
        proof {
            lemma_trim_characterization(v@, a as int, a as int);
        }
        return Vec::new();
    }
    let mut b: usize = v.len();
    while b > a && is_ws_exec(v[b - 1])
        invariant
            a <= b <= v@.len(),
            forall|i: int| b <= i < v@.len() ==> is_ws_byte(#[trigger] v@[i]),
        decreases b,
    {
        b = b - 1;
    }
    proof {
        lemma_trim_characterization(v@, a as int, b as int);
    }
    let mut out: Vec<u8> = Vec::new();
    let mut i: usize = a;
    while i < b
        invariant
            a <= i <= b <= v@.len(),
            out@ =~= v@.subrange(a as int, i as int),
        decreases b - i,
    {
        out.push(v[i]);
        i = i + 1;
    }
    out
}

proof fn lemma_trim_map_add(a: Seq<Seq<u8>>, b: Seq<Seq<u8>>)
    ensures
        (a + b).map_values(|p: Seq<u8>| trim_seq(p)) =~= a.map_values(|p: Seq<u8>| trim_seq(p))
            + b.map_values(|p: Seq<u8>| trim_seq(p)),
{
}

/// `v` split on commas, each piece trimmed.
pub fn split_commas_trim_vec(v: &[u8]) -> (r: Vec<Vec<u8>>)
    ensures
        r.deep_view() =~= split_commas_trimmed(v@),
{
    let mut out: Vec<Vec<u8>> = Vec::new();
    let mut start: usize = 0;
    proof {
        assert(v@.skip(0) =~= v@);
        assert(out.deep_view() =~= Seq::<Seq<u8>>::empty());
    }
    loop
        invariant
            start <= v@.len(),
            split_commas_trimmed(v@) =~= out.deep_view() + split_commas_trimmed(
                v@.skip(start as int),
            ),
        decreases v@.len() - start,
    {
        let ghost sub = v@.skip(start as int);
        let mut i: usize = start;
        while i < v.len() && v[i] != (',' as u8)
            invariant
                start <= i <= v@.len(),
                forall|j: int| start <= j < i ==> v@[j] != ',' as u8,
            decreases v@.len() - i,
        {
            i = i + 1;
        }
        proof {
            assert forall|j: int| 0 <= j < i - start implies sub[j] != ',' as u8 by {
                assert(sub[j] == v@[start + j]);
            }
            if i < v@.len() {
                assert(sub[i - start] == v@[i as int]);
            }
            lemma_find_byte_at(sub, ',' as u8, i - start);
        }
        let mut piece: Vec<u8> = Vec::new();
        let mut j: usize = start;
        while j < i
            invariant
                start <= j <= i <= v@.len(),
                piece@ =~= v@.subrange(start as int, j as int),
            decreases i - j,
        {
            piece.push(v[j]);
            j = j + 1;
        }
        proof {
            assert(sub.take(i - start) =~= v@.subrange(start as int, i as int));
        }
        let trimmed = trim_vec(piece.as_slice());
        let ghost old_dv = out.deep_view();
        out.push(trimmed);
        proof {
            assert(out.deep_view() =~= old_dv + seq![trim_seq(piece@)]) by {
                assert forall|k: int| 0 <= k < out.deep_view().len() implies out.deep_view()[k]
                    == (old_dv + seq![trim_seq(piece@)])[k] by {
                    assert(out.deep_view()[k] == out@[k].deep_view());
                }
            }
        }
        if i == v.len() {
            proof {
                assert(find_byte(sub, ',' as u8) == sub.len());
                assert(split_commas(sub) =~= seq![sub]);
                assert(sub =~= piece@);
                assert(split_commas_trimmed(sub) =~= seq![trim_seq(piece@)]);
            }
            return out;
        }
        proof {
            assert(split_commas(sub) =~= seq![sub.take(i - start)] + split_commas(
                sub.skip(i - start + 1),
            ));
            lemma_trim_map_add(seq![sub.take(i - start)], split_commas(sub.skip(i - start + 1)));
            assert(sub.skip(i - start + 1) =~= v@.skip(i + 1));
            assert(seq![sub.take(i - start)].map_values(|p: Seq<u8>| trim_seq(p)) =~= seq![
                trim_seq(piece@),
            ]);
        }
        start = i + 1;
    }
}

/// `find_byte` finds exactly the first occurrence.
pub proof fn lemma_find_byte_at(s: Seq<u8>, b: u8, k: int)
    requires
        0 <= k <= s.len(),
        forall|j: int| 0 <= j < k ==> s[j] != b,
        k < s.len() ==> s[k] == b,
    ensures
        find_byte(s, b) == k,
    decreases s.len(),
{
    if s.len() == 0 {
    } else if s[0] == b {
    } else {
        lemma_find_byte_at(s.drop_first(), b, k - 1);
    }
}

} // verus!
