//! A normalized, validated ordered collection of header triples
//! `(raw_name, lower_name, value)`.
//!
//! `normalize_and_validate` enforces the token and field-value
//! grammars, keeps at most one effective Content-Length entry and
//! rejects disagreeing ones, and restricts Transfer-Encoding to a
//! single `chunked` value. Its behaviour is pinned, error for error,
//! by the `normalize_fold` specification below.

use vstd::prelude::*;
use vstd::string::StringExecFns;

use crate::ascii::{
    split_commas,
    bytes_eq, is_digits, is_printable, is_token, lower_seq, lower_vec, split_commas_trim_vec,
    split_commas_trimmed, upper_seq, upper_vec,
};
use crate::http_regex::{matches_digits, matches_field_name, matches_field_value};
use crate::util::LocalProtocolError;

verus! {

/// The bytes of the lower-case name `content-length`.
pub open spec fn content_length_label() -> Seq<u8> {
    seq![
        'c' as u8, 'o' as u8, 'n' as u8, 't' as u8, 'e' as u8, 'n' as u8, 't' as u8, '-' as u8,
        'l' as u8, 'e' as u8, 'n' as u8, 'g' as u8, 't' as u8, 'h' as u8,
    ]
}

/// The bytes of the lower-case name `transfer-encoding`.
pub open spec fn transfer_encoding_label() -> Seq<u8> {
    seq![
        't' as u8, 'r' as u8, 'a' as u8, 'n' as u8, 's' as u8, 'f' as u8, 'e' as u8, 'r' as u8,
        '-' as u8, 'e' as u8, 'n' as u8, 'c' as u8, 'o' as u8, 'd' as u8, 'i' as u8, 'n' as u8,
        'g' as u8,
    ]
}

/// The bytes of the value `chunked`.
pub open spec fn chunked_label() -> Seq<u8> {
    seq!['c' as u8, 'h' as u8, 'u' as u8, 'n' as u8, 'k' as u8, 'e' as u8, 'd' as u8]
}

/// The bytes of the lower-case name `expect`.
pub open spec fn expect_label() -> Seq<u8> {
    seq!['e' as u8, 'x' as u8, 'p' as u8, 'e' as u8, 'c' as u8, 't' as u8]
}

/// The bytes of the token `100-continue`.
pub open spec fn continue_label() -> Seq<u8> {
    seq![
        '1' as u8, '0' as u8, '0' as u8, '-' as u8, 'c' as u8, 'o' as u8, 'n' as u8, 't' as u8,
        'i' as u8, 'n' as u8, 'u' as u8, 'e' as u8,
    ]
}

/// The bytes of the lower-case name `host`.
pub open spec fn host_label() -> Seq<u8> {
    seq!['h' as u8, 'o' as u8, 's' as u8, 't' as u8]
}

/// The bytes of `content-length`, as executable data.
pub fn content_length_name() -> (r: Vec<u8>)
    ensures
        r@ =~= content_length_label(),
{
    vec![
        'c' as u8, 'o' as u8, 'n' as u8, 't' as u8, 'e' as u8, 'n' as u8, 't' as u8, '-' as u8,
        'l' as u8, 'e' as u8, 'n' as u8, 'g' as u8, 't' as u8, 'h' as u8,
    ]
}

/// The bytes of `transfer-encoding`, as executable data.
pub fn transfer_encoding_name() -> (r: Vec<u8>)
    ensures
        r@ =~= transfer_encoding_label(),
{
    vec![
        't' as u8, 'r' as u8, 'a' as u8, 'n' as u8, 's' as u8, 'f' as u8, 'e' as u8, 'r' as u8,
        '-' as u8, 'e' as u8, 'n' as u8, 'c' as u8, 'o' as u8, 'd' as u8, 'i' as u8, 'n' as u8,
        'g' as u8,
    ]
}

/// The bytes of `chunked`, as executable data.
pub fn chunked_value() -> (r: Vec<u8>)
    ensures
        r@ =~= chunked_label(),
{
    vec!['c' as u8, 'h' as u8, 'u' as u8, 'n' as u8, 'k' as u8, 'e' as u8, 'd' as u8]
}

/// The bytes of `expect`, as executable data.
pub fn expect_name() -> (r: Vec<u8>)
    ensures
        r@ =~= expect_label(),
{
    vec!['e' as u8, 'x' as u8, 'p' as u8, 'e' as u8, 'c' as u8, 't' as u8]
}

/// The bytes of `100-continue`, as executable data.
pub fn continue_value() -> (r: Vec<u8>)
    ensures
        r@ =~= continue_label(),
{
    vec![
        '1' as u8, '0' as u8, '0' as u8, '-' as u8, 'c' as u8, 'o' as u8, 'n' as u8, 't' as u8,
        'i' as u8, 'n' as u8, 'u' as u8, 'e' as u8,
    ]
}

/// The bytes of `host`, as executable data.
pub fn host_name() -> (r: Vec<u8>)
    ensures
        r@ =~= host_label(),
{
    vec!['h' as u8, 'o' as u8, 's' as u8, 't' as u8]
}

/// The accumulator of header normalization: the triples kept so far,
/// the Content-Length value already accepted, and whether a
/// Transfer-Encoding entry was seen.
pub struct NormState {
    pub out: Seq<(Seq<u8>, Seq<u8>, Seq<u8>)>,
    pub seen_content_length: Option<Seq<u8>>,
    pub saw_transfer_encoding: bool,
}

/// The empty accumulator.
pub open spec fn norm_init() -> NormState {
    NormState { out: Seq::empty(), seen_content_length: None, saw_transfer_encoding: false }
}

/// Whether every token of a comma-split value names the same thing
/// as the first.
pub open spec fn tokens_agree(tokens: Seq<Seq<u8>>) -> bool {
    forall|i: int| 0 <= i < tokens.len() ==> #[trigger] tokens[i] == tokens[0]
}

/// One step of normalization: how a single `(name, value)` pair
/// extends the accumulator, or which error it raises.
pub open spec fn norm_step(acc: NormState, name: Seq<u8>, value: Seq<u8>, parsed: bool) -> Result<
    NormState,
    Seq<char>,
> {
    if !parsed && name.len() == 0 {
        Err("Empty input"@)
    } else if !parsed && value.len() == 0 {
        Err("Empty input"@)
    } else if !parsed && !is_token(name) {
        Err("Illegal header name"@)
    } else if !parsed && !is_printable(value) {
        Err("Illegal header value"@)
    } else {
        let lname = lower_seq(name);
        if lname == content_length_label() {
            let lengths = split_commas_trimmed(value);
            if !tokens_agree(lengths) {
                Err("conflicting Content-Length headers"@)
            } else if !is_digits(lengths[0]) {
                Err("bad Content-Length"@)
            } else {
                match acc.seen_content_length {
                    None => Ok(
                        NormState {
                            out: acc.out.push((name, lname, lengths[0])),
                            seen_content_length: Some(lengths[0]),
                            saw_transfer_encoding: acc.saw_transfer_encoding,
                        },
                    ),
                    Some(prev) => if prev == lengths[0] {
                        Ok(acc)
                    } else {
                        Err("conflicting Content-Length headers"@)
                    },
                }
            }
        } else if lname == transfer_encoding_label() {
            if acc.saw_transfer_encoding {
                Err("multiple Transfer-Encoding headers"@)
            } else {
                let lvalue = lower_seq(value);
                if lvalue != chunked_label() {
                    Err("Only Transfer-Encoding: chunked is supported"@)
                } else {
                    Ok(
                        NormState {
                            out: acc.out.push((name, lname, lvalue)),
                            seen_content_length: acc.seen_content_length,
                            saw_transfer_encoding: true,
                        },
                    )
                }
            }
        } else {
            Ok(
                NormState {
                    out: acc.out.push((name, lname, value)),
                    seen_content_length: acc.seen_content_length,
                    saw_transfer_encoding: acc.saw_transfer_encoding,
                },
            )
        }
    }
}

/// Normalization of a whole pair list, left to right; the first
/// offending pair decides the error.
pub open spec fn normalize_fold(pairs: Seq<(Seq<u8>, Seq<u8>)>, parsed: bool) -> Result<
    NormState,
    Seq<char>,
>
    decreases pairs.len(),
{
    if pairs.len() == 0 {
        Ok(norm_init())
    } else {
        match normalize_fold(pairs.drop_last(), parsed) {
            Err(m) => Err(m),
            Ok(acc) => norm_step(acc, pairs.last().0, pairs.last().1, parsed),
        }
    }
}

/// Comma splitting always yields at least one piece, even of an
/// empty value.
pub proof fn lemma_split_commas_nonempty(s: Seq<u8>)
    ensures
        split_commas_trimmed(s).len() >= 1,
{
    crate::ascii::lemma_find_byte_props(s, ',' as u8);
}

/// Once one pair errs, the error decides the whole fold.
pub proof fn lemma_fold_err_to_end(pairs: Seq<(Seq<u8>, Seq<u8>)>, parsed: bool, k: int)
    requires
        0 <= k <= pairs.len(),
        normalize_fold(pairs.take(k), parsed) is Err,
    ensures
        normalize_fold(pairs, parsed) == normalize_fold(pairs.take(k), parsed),
    decreases pairs.len() - k,
{
    if k == pairs.len() {
        assert(pairs.take(k) =~= pairs);
    } else {
        assert(pairs.take(k + 1).drop_last() =~= pairs.take(k));
        lemma_fold_err_to_end(pairs, parsed, k + 1);
    }
}

/// The deep view of a byte-vector pair, componentwise.
pub proof fn lemma_pair_view(p: (Vec<u8>, Vec<u8>))
    ensures
        p.deep_view().0 =~= p.0@,
        p.deep_view().1 =~= p.1@,
{
}

/// The deep view of a byte-vector triple, componentwise.
pub proof fn lemma_triple_view(t: (Vec<u8>, Vec<u8>, Vec<u8>))
    ensures
        t.deep_view().0 =~= t.0@,
        t.deep_view().1 =~= t.1@,
        t.deep_view().2 =~= t.2@,
{
}

/// The normalized triples of a pair list that validates.
pub open spec fn normalized_items(pairs: Seq<(Seq<u8>, Seq<u8>)>, parsed: bool) -> Seq<
    (Seq<u8>, Seq<u8>, Seq<u8>),
>
    recommends
        normalize_fold(pairs, parsed) is Ok,
{
    normalize_fold(pairs, parsed)->Ok_0.out
}

/// An ordered collection of `(raw_name, lower_name, value)` header
/// triples.
#[derive(Debug)]
pub struct Headers {
    full_items: Vec<(Vec<u8>, Vec<u8>, Vec<u8>)>,
}

impl View for Headers {
    type V = Seq<(Seq<u8>, Seq<u8>, Seq<u8>)>;

    closed spec fn view(&self) -> Seq<(Seq<u8>, Seq<u8>, Seq<u8>)> {
        self.full_items.deep_view()
    }
}

/// The comma-separated values of every entry of `items` whose lower
/// name equals `name`: each matching value is lower-cased, split on
/// commas and trimmed, in order.
pub open spec fn comma_values(items: Seq<(Seq<u8>, Seq<u8>, Seq<u8>)>, name: Seq<u8>) -> Seq<
    Seq<u8>,
>
    decreases items.len(),
{
    if items.len() == 0 {
        Seq::empty()
    } else {
        comma_values(items.drop_last(), name) + (if items.last().1 == name {
            split_commas_trimmed(lower_seq(items.last().2))
        } else {
            Seq::empty()
        })
    }
}

/// The `(raw_name, value)` pairs that `set_comma_header` re-validates:
/// the entries whose lower name differs from `name`, followed by one
/// entry per new value under the upper-cased `name`.
pub open spec fn set_pairs(
    items: Seq<(Seq<u8>, Seq<u8>, Seq<u8>)>,
    name: Seq<u8>,
    values: Seq<Seq<u8>>,
) -> Seq<(Seq<u8>, Seq<u8>)> {
    kept_pairs(items, name) + values.map_values(|v: Seq<u8>| (upper_seq(name), v))
}

/// The `(raw_name, value)` pairs of the entries of `items` whose
/// lower name differs from `name`, in order.
pub open spec fn kept_pairs(items: Seq<(Seq<u8>, Seq<u8>, Seq<u8>)>, name: Seq<u8>) -> Seq<
    (Seq<u8>, Seq<u8>),
>
    decreases items.len(),
{
    if items.len() == 0 {
        Seq::empty()
    } else {
        kept_pairs(items.drop_last(), name) + (if items.last().1 != name {
            seq![(items.last().0, items.last().2)]
        } else {
            Seq::empty()
        })
    }
}

impl Headers {
    /// A collection holding exactly the given triples.
    pub fn new(full_items: Vec<(Vec<u8>, Vec<u8>, Vec<u8>)>) -> (r: Headers)
        ensures
            r@ =~= full_items.deep_view(),
    {
        Headers { full_items }
    }

    /// How many triples the collection holds.
    pub fn len(&self) -> (r: usize)
        ensures
            r == self@.len(),
    {
        self.full_items.len()
    }

    /// The triple at `i`.
    pub fn item_at(&self, i: usize) -> (r: &(Vec<u8>, Vec<u8>, Vec<u8>))
        requires
            i < self@.len(),
        ensures
            r.deep_view() == self@[i as int],
    {
        &self.full_items[i]
    }

    /// Appends one triple.
    pub fn add(&mut self, raw_name: Vec<u8>, name: Vec<u8>, value: Vec<u8>)
        ensures
            final(self)@ =~= old(self)@.push((raw_name@, name@, value@)),
    {
        let ghost before = self@;
        self.full_items.push((raw_name, name, value));
        proof {
            assert forall|k: int| 0 <= k < self@.len() implies self@[k] == before.push(
                (raw_name@, name@, value@),
            )[k] by {
                assert(self@[k] == self.full_items@[k].deep_view());
            }
        }
    }

    /// The `(raw_name, value)` pairs of the collection, in order.
    pub fn raw_items(&self) -> (r: Vec<(Vec<u8>, Vec<u8>)>)
        ensures
            r.deep_view() =~= self@.map_values(
                |t: (Seq<u8>, Seq<u8>, Seq<u8>)| (t.0, t.2),
            ),
    {
        let mut out: Vec<(Vec<u8>, Vec<u8>)> = Vec::new();
        let mut i: usize = 0;
        while i < self.full_items.len()
            invariant
                i <= self@.len(),
                self@.len() == self.full_items@.len(),
                out.deep_view() =~= self@.map_values(
                    |t: (Seq<u8>, Seq<u8>, Seq<u8>)| (t.0, t.2),
                ).take(i as int),
            decreases self@.len() - i,
        {
            let raw_name = self.full_items[i].0.clone();
            let value = self.full_items[i].2.clone();
            let ghost before = out.deep_view();
            out.push((raw_name, value));
            proof {
                assert(self@[i as int] == self.full_items@[i as int].deep_view());
                assert forall|k: int| 0 <= k < out.deep_view().len() implies out.deep_view()[k]
                    == before.push((self@[i as int].0, self@[i as int].2))[k] by {
                    assert(out.deep_view()[k] == out@[k].deep_view());
                }
                assert(out.deep_view() =~= before.push((self@[i as int].0, self@[i as int].2)));
                assert(self@.map_values(|t: (Seq<u8>, Seq<u8>, Seq<u8>)| (t.0, t.2)).take(
                    i + 1,
                ) =~= self@.map_values(|t: (Seq<u8>, Seq<u8>, Seq<u8>)| (t.0, t.2)).take(
                    i as int,
                ).push((self@[i as int].0, self@[i as int].2)));
            }
            i = i + 1;
        }
        proof {
            assert(self@.map_values(|t: (Seq<u8>, Seq<u8>, Seq<u8>)| (t.0, t.2)).take(
                self@.len() as int,
            ) =~= self@.map_values(|t: (Seq<u8>, Seq<u8>, Seq<u8>)| (t.0, t.2)));
        }
        out
    }

    /// Normalizes and validates a list of `(name, value)` pairs. With
    /// `parsed` false the name must match the token grammar and the
    /// value the printable-ASCII grammar. Content-Length entries are
    /// comma-split, trimmed, required to agree, and collapsed to one;
    /// Transfer-Encoding may appear once and only as `chunked` in any
    /// case, normalized to lower case. The result and every error are
    /// exactly those of `normalize_fold`.
    pub fn normalize_and_validate(headers: &Vec<(Vec<u8>, Vec<u8>)>, parsed: bool) -> (r: Result<
        Headers,
        LocalProtocolError,
    >)
        ensures
            match r {
                Ok(h) => normalize_fold(headers.deep_view(), parsed) matches Ok(acc) && h@
                    == acc.out,
                Err(e) => normalize_fold(headers.deep_view(), parsed) matches Err(m) && e.0@ == m,
            },
    {
        let ghost pairs = headers.deep_view();
        let mut out: Vec<(Vec<u8>, Vec<u8>, Vec<u8>)> = Vec::new();
        let mut seen_content_length: Option<Vec<u8>> = None;
        let mut saw_transfer_encoding = false;
        let mut i: usize = 0;
        proof {
            assert(pairs.take(0) =~= Seq::<(Seq<u8>, Seq<u8>)>::empty());
            assert(out.deep_view() =~= Seq::<(Seq<u8>, Seq<u8>, Seq<u8>)>::empty());
        }
        while i < headers.len()
            invariant
                i <= pairs.len(),
                pairs =~= headers.deep_view(),
                pairs.len() == headers@.len(),
                normalize_fold(pairs.take(i as int), parsed) matches Ok(acc) && acc.out
                    == out.deep_view() && acc.saw_transfer_encoding == saw_transfer_encoding
                    && (match (acc.seen_content_length, &seen_content_length) {
                    (Option::None, Option::None) => true,
                    (Option::Some(s), Option::Some(v)) => s =~= v@,
                    _ => false,
                }),
            decreases pairs.len() - i,
        {
            let ghost acc = normalize_fold(pairs.take(i as int), parsed)->Ok_0;
            let name_in = &headers[i].0;
            let value_in = &headers[i].1;
            proof {
                assert(pairs[i as int] == headers@[i as int].deep_view());
                lemma_pair_view(headers@[i as int]);
                assert(pairs[i as int].0 =~= headers@[i as int].0@);
                assert(pairs[i as int].1 =~= headers@[i as int].1@);
                assert(pairs.take(i + 1).drop_last() =~= pairs.take(i as int));
                assert(pairs.take(i + 1).last() == pairs[i as int]);
            }
            if !parsed && name_in.len() == 0 {
                proof {
                    lemma_fold_err_to_end(pairs, parsed, i + 1);
                }
                return Err(LocalProtocolError(String::from_str("Empty input")));
            }
            if !parsed && value_in.len() == 0 {
                proof {
                    lemma_fold_err_to_end(pairs, parsed, i + 1);
                }
                return Err(LocalProtocolError(String::from_str("Empty input")));
            }
            if !parsed && !matches_field_name(name_in.as_slice()) {
                proof {
                    lemma_fold_err_to_end(pairs, parsed, i + 1);
                }
                return Err(LocalProtocolError(String::from_str("Illegal header name")));
            }
            if !parsed && !matches_field_value(value_in.as_slice()) {
                proof {
                    lemma_fold_err_to_end(pairs, parsed, i + 1);
                }
                return Err(LocalProtocolError(String::from_str("Illegal header value")));
            }
            let lname = lower_vec(name_in.as_slice());
            let cl = content_length_name();
            let te = transfer_encoding_name();
            let ghost before = out.deep_view();
            if bytes_eq(lname.as_slice(), cl.as_slice()) {
                let lengths = split_commas_trim_vec(value_in.as_slice());
                let ghost tokens = split_commas_trimmed(pairs[i as int].1);
                proof {
                    lemma_split_commas_nonempty(pairs[i as int].1);
                    assert(lengths.deep_view()[0] == lengths@[0].deep_view());
                    assert(lengths@[0].deep_view() =~= lengths@[0]@);
                }
                let mut agree = true;
                let mut t: usize = 1;
                while t < lengths.len() && agree
                    invariant
                        1 <= t,
                        lengths.deep_view() =~= tokens,
                        lengths.deep_view().len() == lengths@.len(),
                        tokens.len() >= 1,
                        lengths@[0].deep_view() =~= lengths@[0]@,
                        agree ==> forall|u: int|
                            0 <= u < t && u < tokens.len() ==> #[trigger] tokens[u] == tokens[0],
                        !agree ==> !tokens_agree(tokens),
                    decreases lengths@.len() - t + (if agree {
                        1int
                    } else {
                        0int
                    }),
                {
                    proof {
                        assert(lengths.deep_view()[t as int] == lengths@[t as int].deep_view());
                        assert(lengths@[t as int].deep_view() =~= lengths@[t as int]@);
                    }
                    if !bytes_eq(lengths[t].as_slice(), lengths[0].as_slice()) {
                        proof {
                            assert(tokens[t as int] != tokens[0]);
                        }
                        agree = false;
                    } else {
                        t = t + 1;
                    }
                }
                if !agree {
                    proof {
                        lemma_fold_err_to_end(pairs, parsed, i + 1);
                    }
                    return Err(
                        LocalProtocolError(
                            String::from_str("conflicting Content-Length headers"),
                        ),
                    );
                }
                proof {
                    assert(tokens_agree(tokens));
                }
                if !matches_digits(lengths[0].as_slice()) {
                    proof {
                        lemma_fold_err_to_end(pairs, parsed, i + 1);
                    }
                    return Err(LocalProtocolError(String::from_str("bad Content-Length")));
                }
                match &seen_content_length {
                    None => {
                        let value_kept = lengths[0].clone();
                        seen_content_length = Some(lengths[0].clone());
                        out.push((name_in.clone(), lname, value_kept));
                        proof {
                            assert forall|k: int| 0 <= k < out.deep_view().len() implies out
                                .deep_view()[k] == before.push(
                                (pairs[i as int].0, lower_seq(pairs[i as int].0),
                                split_commas_trimmed(pairs[i as int].1)[0]),
                            )[k] by {
                                assert(out.deep_view()[k] == out@[k].deep_view());
                            }
                        }
                    },
                    Some(prev) => {
                        if !bytes_eq(prev.as_slice(), lengths[0].as_slice()) {
                            proof {
                                lemma_fold_err_to_end(pairs, parsed, i + 1);
                            }
                            return Err(
                                LocalProtocolError(
                                    String::from_str("conflicting Content-Length headers"),
                                ),
                            );
                        }
                    },
                }
            } else if bytes_eq(lname.as_slice(), te.as_slice()) {
                if saw_transfer_encoding {
                    proof {
                        lemma_fold_err_to_end(pairs, parsed, i + 1);
                    }
                    return Err(
                        LocalProtocolError(String::from_str("multiple Transfer-Encoding headers")),
                    );
                }
                let lvalue = lower_vec(value_in.as_slice());
                let chunked = chunked_value();
                if !bytes_eq(lvalue.as_slice(), chunked.as_slice()) {
                    proof {
                        lemma_fold_err_to_end(pairs, parsed, i + 1);
                    }
                    return Err(
                        LocalProtocolError(
                            String::from_str("Only Transfer-Encoding: chunked is supported"),
                        ),
                    );
                }
                saw_transfer_encoding = true;
                out.push((name_in.clone(), lname, lvalue));
                proof {
                    assert forall|k: int| 0 <= k < out.deep_view().len() implies out.deep_view()[k]
                        == before.push(
                        (pairs[i as int].0, lower_seq(pairs[i as int].0), lower_seq(
                            pairs[i as int].1,
                        )),
                    )[k] by {
                        assert(out.deep_view()[k] == out@[k].deep_view());
                    }
                }
            } else {
                out.push((name_in.clone(), lname, value_in.clone()));
                proof {
                    assert forall|k: int| 0 <= k < out.deep_view().len() implies out.deep_view()[k]
                        == before.push(
                        (pairs[i as int].0, lower_seq(pairs[i as int].0), pairs[i as int].1),
                    )[k] by {
                        assert(out.deep_view()[k] == out@[k].deep_view());
                    }
                }
            }
            i = i + 1;
        }
        proof {
            assert(pairs.take(pairs.len() as int) =~= pairs);
        }
        Ok(Headers { full_items: out })
    }

    /// The case-folded, trimmed, comma-split values of every entry
    /// named `name`.
    pub fn get_comma_header(&self, name: &[u8]) -> (r: Vec<Vec<u8>>)
        ensures
            r.deep_view() =~= comma_values(self@, name@),
    {
        let mut out: Vec<Vec<u8>> = Vec::new();
        let mut i: usize = 0;
        proof {
            assert(self@.take(0) =~= Seq::<(Seq<u8>, Seq<u8>, Seq<u8>)>::empty());
            assert(out.deep_view() =~= Seq::<Seq<u8>>::empty());
        }
        while i < self.full_items.len()
            invariant
                i <= self@.len(),
                self@.len() == self.full_items@.len(),
                out.deep_view() =~= comma_values(self@.take(i as int), name@),
            decreases self@.len() - i,
        {
            proof {
                assert(self@[i as int] == self.full_items@[i as int].deep_view());
                lemma_triple_view(self.full_items@[i as int]);
                assert(self@[i as int].1 =~= self.full_items@[i as int].1@);
                assert(self@[i as int].2 =~= self.full_items@[i as int].2@);
                assert(self@.take(i + 1).drop_last() =~= self@.take(i as int));
                assert(self@.take(i + 1).last() == self@[i as int]);
            }
            if bytes_eq(self.full_items[i].1.as_slice(), name) {
                let lvalue = lower_vec(self.full_items[i].2.as_slice());
                let mut parts = split_commas_trim_vec(lvalue.as_slice());
                let ghost before = out.deep_view();
                let ghost parts_dv = parts.deep_view();
                let mut j: usize = 0;
                while j < parts.len()
                    invariant
                        j <= parts@.len(),
                        parts_dv.len() == parts@.len(),
                        parts_dv =~= parts.deep_view(),
                        out.deep_view() =~= before + parts_dv.take(j as int),
                    decreases parts@.len() - j,
                {
                    let ghost mid = out.deep_view();
                    let piece = parts[j].clone();
                    out.push(piece);
                    proof {
                        assert(parts.deep_view()[j as int] == parts@[j as int].deep_view());
                        assert forall|k: int| 0 <= k < out.deep_view().len() implies out
                            .deep_view()[k] == mid.push(parts_dv[j as int])[k] by {
                            assert(out.deep_view()[k] == out@[k].deep_view());
                        }
                        assert(out.deep_view() =~= mid.push(parts_dv[j as int]));
                        assert(parts_dv.take(j + 1) =~= parts_dv.take(j as int).push(
                            parts_dv[j as int],
                        ));
                    }
                    j = j + 1;
                }
                proof {
                    assert(parts_dv.take(parts@.len() as int) =~= parts_dv);
                    assert(self@[i as int].1 == self.full_items@[i as int].1.deep_view());
                    assert(comma_values(self@.take(i + 1), name@) =~= comma_values(
                        self@.take(i as int),
                        name@,
                    ) + split_commas_trimmed(lower_seq(self@[i as int].2)));
                }
            } else {
                proof {
                    assert(self@[i as int].1 == self.full_items@[i as int].1.deep_view());
                    assert(comma_values(self@.take(i + 1), name@) =~= comma_values(
                        self@.take(i as int),
                        name@,
                    ));
                }
            }
            i = i + 1;
        }
        proof {
            assert(self@.take(self@.len() as int) =~= self@);
        }
        out
    }

    /// Replaces every entry named `name` with one entry per new
    /// value, then re-validates the whole set.
    pub fn set_comma_header(&self, name: &[u8], new_values: Vec<Vec<u8>>) -> (r: Result<
        Headers,
        LocalProtocolError,
    >)
        ensures
            match r {
                Ok(h) => normalize_fold(set_pairs(self@, name@, new_values.deep_view()), false)
                    matches Ok(acc) && h@ == acc.out,
                Err(e) => normalize_fold(set_pairs(self@, name@, new_values.deep_view()), false)
                    matches Err(m) && e.0@ == m,
            },
    {
        let mut pairs: Vec<(Vec<u8>, Vec<u8>)> = Vec::new();
        let mut i: usize = 0;
        proof {
            assert(self@.take(0) =~= Seq::<(Seq<u8>, Seq<u8>, Seq<u8>)>::empty());
            assert(pairs.deep_view() =~= Seq::<(Seq<u8>, Seq<u8>)>::empty());
        }
        while i < self.full_items.len()
            invariant
                i <= self@.len(),
                self@.len() == self.full_items@.len(),
                pairs.deep_view() =~= kept_pairs(self@.take(i as int), name@),
            decreases self@.len() - i,
        {
            proof {
                assert(self@[i as int] == self.full_items@[i as int].deep_view());
                lemma_triple_view(self.full_items@[i as int]);
                assert(self@[i as int].0 =~= self.full_items@[i as int].0@);
                assert(self@[i as int].1 =~= self.full_items@[i as int].1@);
                assert(self@[i as int].2 =~= self.full_items@[i as int].2@);
                assert(self@.take(i + 1).drop_last() =~= self@.take(i as int));
                assert(self@.take(i + 1).last() == self@[i as int]);
            }
            if !bytes_eq(self.full_items[i].1.as_slice(), name) {
                let ghost before = pairs.deep_view();
                pairs.push((self.full_items[i].0.clone(), self.full_items[i].2.clone()));
                proof {
                    assert forall|k: int| 0 <= k < pairs.deep_view().len() implies pairs
                        .deep_view()[k] == before.push(
                        (self@[i as int].0, self@[i as int].2),
                    )[k] by {
                        assert(pairs.deep_view()[k] == pairs@[k].deep_view());
                    }
                    assert(pairs.deep_view() =~= before.push((self@[i as int].0, self@[i as int].2)));
                    assert(kept_pairs(self@.take(i + 1), name@) =~= kept_pairs(
                        self@.take(i as int),
                        name@,
                    ) + seq![(self@[i as int].0, self@[i as int].2)]);
                }
            } else {
                proof {
                    assert(kept_pairs(self@.take(i + 1), name@) =~= kept_pairs(
                        self@.take(i as int),
                        name@,
                    ));
                }
            }
            i = i + 1;
        }
        proof {
            assert(self@.take(self@.len() as int) =~= self@);
        }
        let upper = upper_vec(name);
        let ghost with_kept = pairs.deep_view();
        let mut j: usize = 0;
        proof {
            assert(new_values.deep_view().take(0) =~= Seq::<Seq<u8>>::empty());
            assert(with_kept + new_values.deep_view().take(0).map_values(
                |v: Seq<u8>| (upper_seq(name@), v),
            ) =~= with_kept);
        }
        while j < new_values.len()
            invariant
                j <= new_values@.len(),
                new_values.deep_view().len() == new_values@.len(),
                upper@ =~= upper_seq(name@),
                pairs.deep_view() =~= with_kept + new_values.deep_view().take(j as int)
                    .map_values(|v: Seq<u8>| (upper_seq(name@), v)),
            decreases new_values@.len() - j,
        {
            let ghost before = pairs.deep_view();
            pairs.push((upper.clone(), new_values[j].clone()));
            proof {
                assert(new_values.deep_view()[j as int] == new_values@[j as int].deep_view());
                assert forall|k: int| 0 <= k < pairs.deep_view().len() implies pairs.deep_view()[k]
                    == before.push((upper_seq(name@), new_values.deep_view()[j as int]))[k] by {
                    assert(pairs.deep_view()[k] == pairs@[k].deep_view());
                }
                assert(pairs.deep_view() =~= before.push(
                    (upper_seq(name@), new_values.deep_view()[j as int]),
                ));
                assert(new_values.deep_view().take(j + 1).map_values(
                    |v: Seq<u8>| (upper_seq(name@), v),
                ) =~= new_values.deep_view().take(j as int).map_values(
                    |v: Seq<u8>| (upper_seq(name@), v),
                ).push((upper_seq(name@), new_values.deep_view()[j as int])));
            }
            j = j + 1;
        }
        proof {
            assert(new_values.deep_view().take(new_values@.len() as int) =~= new_values
                .deep_view());
            assert(pairs.deep_view() =~= set_pairs(self@, name@, new_values.deep_view()));
        }
        Self::normalize_and_validate(&pairs, false)
    }

    /// Whether the comma-split `expect` values include exactly the
    /// token `100-continue`.
    pub fn has_expect_100_continue(&self) -> (r: bool)
        ensures
            r == comma_values(self@, expect_label()).contains(continue_label()),
    {
        let expect = expect_name();
        let values = self.get_comma_header(expect.as_slice());
        let needle = continue_value();
        let mut i: usize = 0;
        while i < values.len()
            invariant
                i <= values@.len(),
                values.deep_view() =~= comma_values(self@, expect_label()),
                values.deep_view().len() == values@.len(),
                needle@ =~= continue_label(),
                forall|j: int| 0 <= j < i ==> values.deep_view()[j] != continue_label(),
            decreases values@.len() - i,
        {
            proof {
                assert(values.deep_view()[i as int] == values@[i as int].deep_view());
                assert(values@[i as int].deep_view() =~= values@[i as int]@);
            }
            if bytes_eq(values[i].as_slice(), needle.as_slice()) {
                proof {
                    assert(comma_values(self@, expect_label())[i as int] == continue_label());
                }
                return true;
            }
            i = i + 1;
        }
        proof {
            assert(!comma_values(self@, expect_label()).contains(continue_label())) by {
                if comma_values(self@, expect_label()).contains(continue_label()) {
                    let k = choose|k: int|
                        0 <= k < comma_values(self@, expect_label()).len() && comma_values(
                            self@,
                            expect_label(),
                        )[k] == continue_label();
                }
            }
        }
        false
    }
}


/// How many triples of `items` carry the lower name `name`.
pub open spec fn count_name(items: Seq<(Seq<u8>, Seq<u8>, Seq<u8>)>, name: Seq<u8>) -> nat
    decreases items.len(),
{
    if items.len() == 0 {
        0
    } else {
        count_name(items.drop_last(), name) + (if items.last().1 == name {
            1nat
        } else {
            0nat
        })
    }
}

/// How many pairs of `pairs` have a name that lower-cases to `name`.
pub open spec fn count_pair_name(pairs: Seq<(Seq<u8>, Seq<u8>)>, name: Seq<u8>) -> nat
    decreases pairs.len(),
{
    if pairs.len() == 0 {
        0
    } else {
        count_pair_name(pairs.drop_last(), name) + (if lower_seq(pairs.last().0) == name {
            1nat
        } else {
            0nat
        })
    }
}

/// The `(raw_name, value)` pairs of a triple list.
pub open spec fn raw_value_pairs(items: Seq<(Seq<u8>, Seq<u8>, Seq<u8>)>) -> Seq<
    (Seq<u8>, Seq<u8>),
> {
    items.map_values(|t: (Seq<u8>, Seq<u8>, Seq<u8>)| (t.0, t.2))
}

/// What holds of every accumulator normalization produces: lower
/// names are the lower casings of the raw names; the Content-Length
/// entry, when present, is unique, all digits, and recorded in
/// `seen_content_length`; the Transfer-Encoding entry, when present,
/// is unique and holds exactly `chunked`.
pub open spec fn normalized_wf(acc: NormState) -> bool {
    &&& forall|k: int|
        0 <= k < acc.out.len() ==> (#[trigger] acc.out[k]).1 == lower_seq(acc.out[k].0)
    &&& forall|k: int|
        0 <= k < acc.out.len() && (#[trigger] acc.out[k]).1 == content_length_label() ==> (
        is_digits(acc.out[k].2) && acc.seen_content_length == Some(acc.out[k].2))
    &&& forall|k: int|
        0 <= k < acc.out.len() && (#[trigger] acc.out[k]).1 == transfer_encoding_label()
            ==> acc.out[k].2 == chunked_label()
    &&& count_name(acc.out, content_length_label()) == (match acc.seen_content_length {
        Some(_) => 1nat,
        None => 0nat,
    })
    &&& count_name(acc.out, transfer_encoding_label()) == (if acc.saw_transfer_encoding {
        1nat
    } else {
        0nat
    })
}

/// Every successful normalization yields a well-formed accumulator:
/// in particular at most one Content-Length and at most one
/// Transfer-Encoding entry survive, the latter always as lowercase
/// `chunked`.
pub proof fn lemma_fold_wf(pairs: Seq<(Seq<u8>, Seq<u8>)>, parsed: bool)
    requires
        normalize_fold(pairs, parsed) is Ok,
    ensures
        normalized_wf(normalize_fold(pairs, parsed)->Ok_0),
    decreases pairs.len(),
{
    if pairs.len() == 0 {
    } else {
        lemma_fold_wf(pairs.drop_last(), parsed);
        let prev = normalize_fold(pairs.drop_last(), parsed)->Ok_0;
        let acc = normalize_fold(pairs, parsed)->Ok_0;
        let name = pairs.last().0;
        let value = pairs.last().1;
        let lname = lower_seq(name);
        if lname == content_length_label() {
            match prev.seen_content_length {
                None => {
                    assert(acc.out.drop_last() =~= prev.out);
                    assert(acc.out.last() == (name, lname, split_commas_trimmed(value)[0]));
                },
                Some(_) => {},
            }
        } else if lname == transfer_encoding_label() {
            assert(acc.out.drop_last() =~= prev.out);
        } else {
            assert(acc.out.drop_last() =~= prev.out);
        }
    }
}

/// `normalize_fold` only ever accepts a Content-Length entry whose
/// comma-split, trimmed tokens all name one digit string, and every
/// such entry in the input carries the one recorded token.
pub proof fn lemma_fold_content_length_pairs(pairs: Seq<(Seq<u8>, Seq<u8>)>, parsed: bool)
    requires
        normalize_fold(pairs, parsed) is Ok,
    ensures
        forall|i: int|
            0 <= i < pairs.len() && lower_seq((#[trigger] pairs[i]).0) == content_length_label()
                ==> (tokens_agree(split_commas_trimmed(pairs[i].1)) && normalize_fold(
                pairs,
                parsed,
            )->Ok_0.seen_content_length == Some(split_commas_trimmed(pairs[i].1)[0])),
    decreases pairs.len(),
{
    if pairs.len() == 0 {
    } else {
        lemma_fold_content_length_pairs(pairs.drop_last(), parsed);
        let prev = normalize_fold(pairs.drop_last(), parsed)->Ok_0;
        let acc = normalize_fold(pairs, parsed)->Ok_0;
        assert forall|i: int|
            0 <= i < pairs.len() && lower_seq((#[trigger] pairs[i]).0) == content_length_label()
                implies (tokens_agree(split_commas_trimmed(pairs[i].1)) && acc.seen_content_length
                == Some(split_commas_trimmed(pairs[i].1)[0])) by {
            if i < pairs.len() - 1 {
                assert(pairs.drop_last()[i] == pairs[i]);
            }
        }
    }
}

/// Two Content-Length entries make the whole header set invalid
/// unless both reduce, after comma splitting and trimming, to one
/// common token: a disagreement inside either value, or between the
/// two, is rejected.
pub proof fn lemma_conflicting_content_length(
    pairs: Seq<(Seq<u8>, Seq<u8>)>,
    parsed: bool,
    i: int,
    j: int,
)
    requires
        0 <= i < pairs.len(),
        0 <= j < pairs.len(),
        lower_seq(pairs[i].0) == content_length_label(),
        lower_seq(pairs[j].0) == content_length_label(),
        !(tokens_agree(split_commas_trimmed(pairs[i].1)) && tokens_agree(
            split_commas_trimmed(pairs[j].1),
        ) && split_commas_trimmed(pairs[i].1)[0] == split_commas_trimmed(pairs[j].1)[0]),
    ensures
        normalize_fold(pairs, parsed) is Err,
{
    if normalize_fold(pairs, parsed) is Ok {
        lemma_fold_content_length_pairs(pairs, parsed);
    }
}

/// A Transfer-Encoding entry whose value is anything but `chunked`
/// in some casing makes the whole header set invalid.
pub proof fn lemma_transfer_encoding_rejected(
    pairs: Seq<(Seq<u8>, Seq<u8>)>,
    parsed: bool,
    i: int,
)
    requires
        0 <= i < pairs.len(),
        lower_seq(pairs[i].0) == transfer_encoding_label(),
        lower_seq(pairs[i].1) != chunked_label(),
    ensures
        normalize_fold(pairs, parsed) is Err,
{
    if normalize_fold(pairs.take(i + 1), parsed) is Ok {
        assert(pairs.take(i + 1).drop_last() =~= pairs.take(i));
        assert(pairs.take(i + 1).last() == pairs[i]);
        assert(false);
    }
    lemma_fold_err_to_end(pairs, parsed, i + 1);
}

/// A nonempty digit run has no commas and no surrounding whitespace,
/// so comma-splitting and trimming it returns it alone.
pub proof fn lemma_digits_split(v: Seq<u8>)
    requires
        is_digits(v),
    ensures
        split_commas_trimmed(v) =~= seq![v],
{
    lemma_find_byte_none(v, ',' as u8);
    crate::ascii::lemma_trim_characterization(v, 0, v.len() as int);
    assert(v.subrange(0, v.len() as int) =~= v);
    assert(split_commas(v) =~= seq![v]);
}

proof fn lemma_find_byte_none(s: Seq<u8>, b: u8)
    requires
        forall|i: int| 0 <= i < s.len() ==> #[trigger] s[i] != b,
    ensures
        crate::ascii::find_byte(s, b) == s.len(),
    decreases s.len(),
{
    if s.len() == 0 {
    } else {
        assert forall|i: int| 0 <= i < s.drop_first().len() implies #[trigger] s.drop_first()[i]
            != b by {
            assert(s.drop_first()[i] == s[i + 1]);
        }
        lemma_find_byte_none(s.drop_first(), b);
    }
}

/// Re-running normalization on an already-normalized header set, with
/// the grammar checks skipped as for parsed input, returns it
/// unchanged: the triples, the recorded Content-Length and the
/// Transfer-Encoding flag all come out as they went in.
pub proof fn lemma_normalize_idempotent(pairs: Seq<(Seq<u8>, Seq<u8>)>, parsed: bool)
    requires
        normalize_fold(pairs, parsed) is Ok,
    ensures
        ({
            let acc = normalize_fold(pairs, parsed)->Ok_0;
            normalize_fold(raw_value_pairs(acc.out), true) == Ok::<NormState, Seq<char>>(acc)
        }),
{
    let acc = normalize_fold(pairs, parsed)->Ok_0;
    lemma_fold_wf(pairs, parsed);
    lemma_refold(acc.out, acc.seen_content_length, acc.saw_transfer_encoding);
}

pub proof fn lemma_refold(
    out: Seq<(Seq<u8>, Seq<u8>, Seq<u8>)>,
    seen: Option<Seq<u8>>,
    saw: bool,
)
    requires
        forall|k: int| 0 <= k < out.len() ==> (#[trigger] out[k]).1 == lower_seq(out[k].0),
        forall|k: int|
            0 <= k < out.len() && (#[trigger] out[k]).1 == content_length_label() ==> (is_digits(
                out[k].2,
            ) && seen == Some(out[k].2)),
        forall|k: int|
            0 <= k < out.len() && (#[trigger] out[k]).1 == transfer_encoding_label() ==> out[k].2
                == chunked_label(),
        count_name(out, content_length_label()) == (match seen {
            Some(_) => 1nat,
            None => 0nat,
        }),
        count_name(out, transfer_encoding_label()) == (if saw {
            1nat
        } else {
            0nat
        }),
    ensures
        normalize_fold(raw_value_pairs(out), true) == Ok::<NormState, Seq<char>>(
            NormState { out: out, seen_content_length: seen, saw_transfer_encoding: saw },
        ),
    decreases out.len(),
{
    if out.len() == 0 {
        assert(raw_value_pairs(out) =~= Seq::<(Seq<u8>, Seq<u8>)>::empty());
        assert(out =~= Seq::<(Seq<u8>, Seq<u8>, Seq<u8>)>::empty());
    } else {
        let prev = out.drop_last();
        let last = out.last();
        assert(raw_value_pairs(out).drop_last() =~= raw_value_pairs(prev));
        assert(raw_value_pairs(out).last() == (last.0, last.2));
        assert forall|k: int| 0 <= k < prev.len() implies (#[trigger] prev[k]) == out[k] by {}
        if last.1 == content_length_label() {
            assert(seen == Some(last.2));
            assert(count_name(out, content_length_label()) == 1);
            assert(count_name(prev, content_length_label()) == 0);
            lemma_count_name_zero(prev, content_length_label());
            lemma_refold(prev, None, saw);
            lemma_digits_split(last.2);
            let acc2 = normalize_fold(raw_value_pairs(out), true)->Ok_0;
            assert(acc2.out =~= prev.push(last));
            assert(prev.push(last) =~= out);
        } else if last.1 == transfer_encoding_label() {
            lemma_refold(prev, seen, false);
            let lv = lower_seq(last.2);
            assert(lv =~= chunked_label());
            let acc2 = normalize_fold(raw_value_pairs(out), true)->Ok_0;
            assert(acc2.out =~= prev.push((last.0, last.1, lv)));
            assert(prev.push((last.0, last.1, lv)) =~= out);
        } else {
            lemma_refold(prev, seen, saw);
            let acc2 = normalize_fold(raw_value_pairs(out), true)->Ok_0;
            assert(acc2.out =~= prev.push(last));
            assert(prev.push(last) =~= out);
        }
    }
}

/// A header set whose entries all satisfy the wire grammar, whose
/// Content-Length entries all reduce — comma-split, trimmed, and
/// deduplicated — to the same digit token, and whose
/// Transfer-Encoding entries number at most one and read `chunked`
/// in some casing, validates; its Content-Length entries collapse to
/// at most one.
pub proof fn lemma_normalize_accepts(pairs: Seq<(Seq<u8>, Seq<u8>)>, parsed: bool, t: Seq<u8>)
    requires
        forall|i: int|
            0 <= i < pairs.len() ==> parsed || (is_token((#[trigger] pairs[i]).0) && is_printable(
                pairs[i].1,
            )),
        forall|i: int|
            0 <= i < pairs.len() && lower_seq((#[trigger] pairs[i]).0) == content_length_label()
                ==> (tokens_agree(split_commas_trimmed(pairs[i].1)) && split_commas_trimmed(
                pairs[i].1,
            )[0] == t),
        is_digits(t),
        count_pair_name(pairs, transfer_encoding_label()) <= 1,
        forall|i: int|
            0 <= i < pairs.len() && lower_seq((#[trigger] pairs[i]).0)
                == transfer_encoding_label() ==> lower_seq(pairs[i].1) == chunked_label(),
    ensures
        normalize_fold(pairs, parsed) matches Ok(acc) && (acc.seen_content_length is None
            || acc.seen_content_length == Some(t)) && count_name(
            acc.out,
            content_length_label(),
        ) <= 1,
    decreases pairs.len(),
{
    if pairs.len() == 0 {
    } else {
        let prev_pairs = pairs.drop_last();
        assert forall|k: int| 0 <= k < prev_pairs.len() implies (#[trigger] prev_pairs[k])
            == pairs[k] by {}
        lemma_normalize_accepts(prev_pairs, parsed, t);
        let prev = normalize_fold(prev_pairs, parsed)->Ok_0;
        let name = pairs.last().0;
        let value = pairs.last().1;
        let lname = lower_seq(name);
        if lname == content_length_label() {
            assert(tokens_agree(split_commas_trimmed(value)));
            assert(split_commas_trimmed(value)[0] == t);
        } else if lname == transfer_encoding_label() {
            assert(count_pair_name(prev_pairs, transfer_encoding_label()) == 0);
            assert(!prev.saw_transfer_encoding) by {
                lemma_saw_matches_count(prev_pairs, parsed);
            }
        }
        lemma_fold_wf(pairs, parsed);
    }
}

/// A name is counted at least once exactly when some entry carries
/// it.
pub proof fn lemma_count_name_pos(items: Seq<(Seq<u8>, Seq<u8>, Seq<u8>)>, name: Seq<u8>)
    ensures
        count_name(items, name) > 0 <==> exists|k: int|
            0 <= k < items.len() && (#[trigger] items[k]).1 == name,
    decreases items.len(),
{
    if items.len() == 0 {
    } else {
        lemma_count_name_pos(items.drop_last(), name);
        if count_name(items, name) > 0 {
            if items.last().1 == name {
                assert(items[items.len() - 1].1 == name);
            } else {
                let k = choose|k: int|
                    0 <= k < items.drop_last().len() && (#[trigger] items.drop_last()[k]).1
                        == name;
                assert(items[k].1 == name);
            }
        }
        if exists|k: int| 0 <= k < items.len() && (#[trigger] items[k]).1 == name {
            let k = choose|k: int| 0 <= k < items.len() && (#[trigger] items[k]).1 == name;
            if k < items.len() - 1 {
                assert(items.drop_last()[k].1 == name);
            }
        }
    }
}

proof fn lemma_count_name_zero(items: Seq<(Seq<u8>, Seq<u8>, Seq<u8>)>, name: Seq<u8>)
    requires
        count_name(items, name) == 0,
    ensures
        forall|k: int| 0 <= k < items.len() ==> (#[trigger] items[k]).1 != name,
    decreases items.len(),
{
    if items.len() == 0 {
    } else {
        lemma_count_name_zero(items.drop_last(), name);
        assert forall|k: int| 0 <= k < items.len() implies (#[trigger] items[k]).1 != name by {
            if k < items.len() - 1 {
                assert(items.drop_last()[k] == items[k]);
            }
        }
    }
}

/// The Transfer-Encoding flag of a successful normalization counts
/// the Transfer-Encoding entries of the input.
proof fn lemma_saw_matches_count(pairs: Seq<(Seq<u8>, Seq<u8>)>, parsed: bool)
    requires
        normalize_fold(pairs, parsed) is Ok,
    ensures
        normalize_fold(pairs, parsed)->Ok_0.saw_transfer_encoding == (count_pair_name(
            pairs,
            transfer_encoding_label(),
        ) >= 1),
    decreases pairs.len(),
{
    if pairs.len() == 0 {
    } else {
        lemma_saw_matches_count(pairs.drop_last(), parsed);
    }
}


/// Every triple a grammar-checked normalization keeps has a token
/// raw name and a printable value.
pub proof fn lemma_fold_grammar(pairs: Seq<(Seq<u8>, Seq<u8>)>)
    requires
        normalize_fold(pairs, false) is Ok,
    ensures
        forall|k: int|
            0 <= k < normalize_fold(pairs, false)->Ok_0.out.len() ==> is_token(
                (#[trigger] normalize_fold(pairs, false)->Ok_0.out[k]).0,
            ) && is_printable(normalize_fold(pairs, false)->Ok_0.out[k].2),
    decreases pairs.len(),
{
    if pairs.len() == 0 {
    } else {
        lemma_fold_grammar(pairs.drop_last());
        let prev = normalize_fold(pairs.drop_last(), false)->Ok_0;
        let acc = normalize_fold(pairs, false)->Ok_0;
        let name = pairs.last().0;
        let value = pairs.last().1;
        let lname = lower_seq(name);
        if lname == content_length_label() {
            match prev.seen_content_length {
                None => {
                    assert(acc.out.drop_last() =~= prev.out);
                    assert(is_digits(split_commas_trimmed(value)[0]));
                    assert(is_printable(split_commas_trimmed(value)[0]));
                },
                Some(_) => {},
            }
        } else if lname == transfer_encoding_label() {
            assert(acc.out.drop_last() =~= prev.out);
            assert(lower_seq(value) == chunked_label());
            assert(is_printable(chunked_label()));
        } else {
            assert(acc.out.drop_last() =~= prev.out);
        }
    }
}

/// On pairs that satisfy the wire grammar, skipping the grammar
/// checks changes nothing.
pub proof fn lemma_fold_parsed_irrelevant(pairs: Seq<(Seq<u8>, Seq<u8>)>)
    requires
        forall|i: int|
            0 <= i < pairs.len() ==> is_token((#[trigger] pairs[i]).0) && is_printable(
                pairs[i].1,
            ),
    ensures
        normalize_fold(pairs, false) == normalize_fold(pairs, true),
    decreases pairs.len(),
{
    if pairs.len() == 0 {
    } else {
        assert forall|i: int| 0 <= i < pairs.drop_last().len() implies is_token(
            (#[trigger] pairs.drop_last()[i]).0,
        ) && is_printable(pairs.drop_last()[i].1) by {
            assert(pairs.drop_last()[i] == pairs[i]);
        }
        lemma_fold_parsed_irrelevant(pairs.drop_last());
    }
}

} // verus!
