//! Parsing of message heads from extracted lines: request lines,
//! status lines and header fields, with round-trip theorems against
//! the serializers of `crate::writers`.

use vstd::prelude::*;

use crate::ascii::{
    find_byte, is_digit_byte, is_digits, is_printable, is_token, is_token_byte, is_vchar_byte,
    is_vchar_run, is_ws_byte, lemma_find_byte_at, lemma_trim_characterization, trim_seq,
};
use crate::headers::raw_value_pairs;
use crate::http_regex::{matches_field_name, matches_field_value, matches_request_target};
use crate::num::{dec_seq, dec_val, lemma_dec_round_trip};
use crate::receive_buffer::{cr, first_blank, first_crlf, lf, split_crlf, lemma_first_blank_at, lemma_first_crlf_at};
use crate::writers::{
    crlf_seq, http11_token, render_entry, render_headers, render_list, render_request,
    render_response, sel_host,
};

verus! {

/// A parsed request line: method, target, and the version digits.
pub open spec fn parse_request_line_spec(line: Seq<u8>) -> Option<(Seq<u8>, Seq<u8>, Seq<u8>)> {
    let i = find_byte(line, ' ' as u8);
    if i == line.len() {
        None
    } else {
        let method = line.take(i as int);
        let rest = line.skip(i as int + 1);
        let j = find_byte(rest, ' ' as u8);
        if j == rest.len() {
            None
        } else {
            let target = rest.take(j as int);
            let ver = rest.skip(j as int + 1);
            if is_token(method) && is_vchar_run(target) && ver.len() == 8 && ver.take(5)
                == http11_token().take(5) && is_digit_byte(ver[5]) && ver[6] == '.' as u8
                && is_digit_byte(ver[7]) {
                Some((method, target, ver.skip(5)))
            } else {
                None
            }
        }
    }
}

/// A parsed status line: status code value, reason, and the version
/// digits.
pub open spec fn parse_status_line_spec(line: Seq<u8>) -> Option<(nat, Seq<u8>, Seq<u8>)> {
    if line.len() < 9 {
        None
    } else if line.take(5) == http11_token().take(5) && is_digit_byte(line[5]) && line[6]
        == '.' as u8 && is_digit_byte(line[7]) && line[8] == ' ' as u8 {
        let rest = line.skip(9);
        let k = find_byte(rest, ' ' as u8);
        let digits = rest.take(k as int);
        let reason = if k == rest.len() {
            Seq::<u8>::empty()
        } else {
            rest.skip(k as int + 1)
        };
        if digits.len() == 3 && is_digits(digits) {
            Some((dec_val(digits), reason, line.subrange(5, 8)))
        } else {
            None
        }
    } else {
        None
    }
}

/// A parsed header field line: name and trimmed value.
pub open spec fn parse_header_line_spec(line: Seq<u8>) -> Option<(Seq<u8>, Seq<u8>)> {
    let i = find_byte(line, ':' as u8);
    if i == line.len() {
        None
    } else {
        let name = line.take(i as int);
        let value = trim_seq(line.skip(i as int + 1));
        if is_token(name) && is_printable(value) {
            Some((name, value))
        } else {
            None
        }
    }
}

/// The header pairs of a list of field lines; any offending line
/// fails the whole block.
pub open spec fn parse_header_lines_spec(lines: Seq<Seq<u8>>) -> Option<Seq<(Seq<u8>, Seq<u8>)>>
    decreases lines.len(),
{
    if lines.len() == 0 {
        Some(Seq::empty())
    } else {
        match parse_header_lines_spec(lines.drop_last()) {
            None => None,
            Some(pairs) => match parse_header_line_spec(lines.last()) {
                None => None,
                Some(p) => Some(pairs.push(p)),
            },
        }
    }
}

/// A parsed request head: the request line fields and the header
/// pairs of the remaining lines.
pub open spec fn parse_request_head_spec(lines: Seq<Seq<u8>>) -> Option<
    (Seq<u8>, Seq<u8>, Seq<u8>, Seq<(Seq<u8>, Seq<u8>)>),
> {
    if lines.len() == 0 {
        None
    } else {
        match parse_request_line_spec(lines[0]) {
            None => None,
            Some((method, target, ver)) => match parse_header_lines_spec(lines.skip(1)) {
                None => None,
                Some(pairs) => Some((method, target, ver, pairs)),
            },
        }
    }
}

/// A parsed response head: the status line fields and the header
/// pairs of the remaining lines.
pub open spec fn parse_response_head_spec(lines: Seq<Seq<u8>>) -> Option<
    (nat, Seq<u8>, Seq<u8>, Seq<(Seq<u8>, Seq<u8>)>),
> {
    if lines.len() == 0 {
        None
    } else {
        match parse_status_line_spec(lines[0]) {
            None => None,
            Some((status, reason, ver)) => match parse_header_lines_spec(lines.skip(1)) {
                None => None,
                Some(pairs) => Some((status, reason, ver, pairs)),
            },
        }
    }
}

fn find_byte_exec(line: &[u8], b: u8) -> (r: usize)
    ensures
        r == find_byte(line@, b),
        r <= line@.len(),
{
    let mut i: usize = 0;
    while i < line.len() && line[i] != b
        invariant
            i <= line@.len(),
            forall|j: int| 0 <= j < i ==> line@[j] != b,
        decreases line@.len() - i,
    {
        i = i + 1;
    }
    proof {
        lemma_find_byte_at(line@, b, i as int);
    }
    i
}

fn copy_range(line: &[u8], from: usize, to: usize) -> (r: Vec<u8>)
    requires
        from <= to <= line@.len(),
    ensures
        r@ =~= line@.subrange(from as int, to as int),
{
    let mut out: Vec<u8> = Vec::new();
    let mut i: usize = from;
    while i < to
        invariant
            from <= i <= to <= line@.len(),
            out@ =~= line@.subrange(from as int, i as int),
        decreases to - i,
    {
        out.push(line[i]);
        i = i + 1;
    }
    out
}

/// Reads a request line into method, target and version digits.
pub fn parse_request_line(line: &[u8]) -> (r: Option<(Vec<u8>, Vec<u8>, Vec<u8>)>)
    ensures
        match r {
            Some((m, t, v)) => parse_request_line_spec(line@) matches Some(s) && m@ == s.0 && t@
                == s.1 && v@ == s.2,
            None => parse_request_line_spec(line@) is None,
        },
{
    let i = find_byte_exec(line, ' ' as u8);
    if i == line.len() {
        return None;
    }
    let method = copy_range(line, 0, i);
    let rest = copy_range(line, i + 1, line.len());
    proof {
        assert(rest@ =~= line@.skip(i as int + 1));
    }
    let j = find_byte_exec(rest.as_slice(), ' ' as u8);
    if j == rest.len() {
        return None;
    }
    let target = copy_range(rest.as_slice(), 0, j);
    let ver = copy_range(rest.as_slice(), j + 1, rest.len());
    proof {
        assert(method@ =~= line@.take(i as int));
        assert(target@ =~= rest@.take(j as int));
        assert(ver@ =~= rest@.skip(j as int + 1));
    }
    if !matches_field_name(method.as_slice()) {
        return None;
    }
    if !matches_request_target(target.as_slice()) {
        return None;
    }
    if !(ver.len() == 8 && ver[0] == ('H' as u8) && ver[1] == ('T' as u8) && ver[2] == ('T' as u8)
        && ver[3] == ('P' as u8) && ver[4] == ('/' as u8) && (('0' as u8) <= ver[5] && ver[5]
        <= ('9' as u8)) && ver[6] == ('.' as u8) && (('0' as u8) <= ver[7] && ver[7]
        <= ('9' as u8))) {
        proof {
            if ver@.len() == 8 && ver@.take(5) == http11_token().take(5) {
                assert forall|k: int| 0 <= k < 5 implies ver@[k] == http11_token()[k] by {
                    assert(ver@.take(5)[k] == http11_token().take(5)[k]);
                }
                assert(ver@[0] == 'H' as u8);
                assert(ver@[1] == 'T' as u8);
                assert(ver@[2] == 'T' as u8);
                assert(ver@[3] == 'P' as u8);
                assert(ver@[4] == '/' as u8);
            }
        }
        return None;
    }
    let digits = copy_range(ver.as_slice(), 5, 8);
    proof {
        assert(ver@.take(5) =~= http11_token().take(5));
        assert(digits@ =~= ver@.skip(5));
    }
    Some((method, target, digits))
}

/// Reads a status line into status code, reason and version digits.
pub fn parse_status_line(line: &[u8]) -> (r: Option<(u16, Vec<u8>, Vec<u8>)>)
    ensures
        match r {
            Some((code, reason, v)) => parse_status_line_spec(line@) matches Some(s) && code as nat
                == s.0 && reason@ == s.1 && v@ == s.2,
            None => parse_status_line_spec(line@) is None,
        },
{
    if line.len() < 9 {
        return None;
    }
    if !(line[0] == ('H' as u8) && line[1] == ('T' as u8) && line[2] == ('T' as u8) && line[3]
        == ('P' as u8) && line[4] == ('/' as u8) && (('0' as u8) <= line[5] && line[5]
        <= ('9' as u8)) && line[6] == ('.' as u8) && (('0' as u8) <= line[7] && line[7]
        <= ('9' as u8)) && line[8] == (' ' as u8)) {
        proof {
            if line@.take(5) == http11_token().take(5) {
                assert forall|k: int| 0 <= k < 5 implies line@[k] == http11_token()[k] by {
                    assert(line@.take(5)[k] == http11_token().take(5)[k]);
                }
                assert(line@[0] == 'H' as u8);
                assert(line@[1] == 'T' as u8);
                assert(line@[2] == 'T' as u8);
                assert(line@[3] == 'P' as u8);
                assert(line@[4] == '/' as u8);
            }
        }
        return None;
    }
    proof {
        assert(line@.take(5) =~= http11_token().take(5));
    }
    let rest = copy_range(line, 9, line.len());
    proof {
        assert(rest@ =~= line@.skip(9));
    }
    let k = find_byte_exec(rest.as_slice(), ' ' as u8);
    let digits = copy_range(rest.as_slice(), 0, k);
    proof {
        assert(digits@ =~= rest@.take(k as int));
    }
    let reason = if k == rest.len() {
        Vec::new()
    } else {
        copy_range(rest.as_slice(), k + 1, rest.len())
    };
    proof {
        if k < rest@.len() {
            assert(reason@ =~= rest@.skip(k as int + 1));
        } else {
            assert(reason@ =~= Seq::<u8>::empty());
        }
    }
    if !(digits.len() == 3 && crate::http_regex::matches_digits(digits.as_slice())) {
        return None;
    }
    let code = match crate::num::parse_dec(digits.as_slice()) {
        Some(n) => n,
        None => {
            proof {
                lemma_dec_val_small(digits@);
            }
            return None;
        },
    };
    proof {
        lemma_dec_val_small(digits@);
    }
    let version = copy_range(line, 5, 8);
    proof {
        assert(version@ =~= line@.subrange(5, 8));
    }
    Some((code as u16, reason, version))
}

/// Three digits read as a number below one thousand.
proof fn lemma_dec_val_small(s: Seq<u8>)
    requires
        is_digits(s),
        s.len() == 3,
    ensures
        dec_val(s) < 1000,
{
    assert(dec_val(s.drop_last().drop_last().drop_last()) == 0) by {
        assert(s.drop_last().drop_last().drop_last() =~= Seq::<u8>::empty());
    }
    assert(dec_val(s.drop_last().drop_last()) <= 9);
    assert(dec_val(s.drop_last()) <= 99);
}

/// Reads a header field line into its name and trimmed value.
pub fn parse_header_line(line: &[u8]) -> (r: Option<(Vec<u8>, Vec<u8>)>)
    ensures
        match r {
            Some((n, v)) => parse_header_line_spec(line@) matches Some(s) && n@ == s.0 && v@
                == s.1,
            None => parse_header_line_spec(line@) is None,
        },
{
    let i = find_byte_exec(line, ':' as u8);
    if i == line.len() {
        return None;
    }
    let name = copy_range(line, 0, i);
    let rawvalue = copy_range(line, i + 1, line.len());
    proof {
        assert(name@ =~= line@.take(i as int));
        assert(rawvalue@ =~= line@.skip(i as int + 1));
    }
    let value = crate::ascii::trim_vec(rawvalue.as_slice());
    if !matches_field_name(name.as_slice()) {
        return None;
    }
    if !matches_field_value(value.as_slice()) {
        return None;
    }
    Some((name, value))
}

/// Reads the header lines that follow a start line.
pub fn parse_header_lines(lines: &Vec<Vec<u8>>, from: usize) -> (r: Option<
    Vec<(Vec<u8>, Vec<u8>)>,
>)
    requires
        from <= lines@.len(),
    ensures
        match r {
            Some(pairs) => parse_header_lines_spec(lines.deep_view().skip(from as int)) matches
                Some(s) && pairs.deep_view() == s,
            None => parse_header_lines_spec(lines.deep_view().skip(from as int)) is None,
        },
{
    let ghost tail = lines.deep_view().skip(from as int);
    let mut pairs: Vec<(Vec<u8>, Vec<u8>)> = Vec::new();
    let mut i: usize = from;
    proof {
        assert(tail.take(0) =~= Seq::<Seq<u8>>::empty());
        assert(pairs.deep_view() =~= Seq::<(Seq<u8>, Seq<u8>)>::empty());
    }
    while i < lines.len()
        invariant
            from <= i <= lines@.len(),
            tail =~= lines.deep_view().skip(from as int),
            lines.deep_view().len() == lines@.len(),
            parse_header_lines_spec(tail.take(i - from)) matches Some(s) && pairs.deep_view()
                == s,
        decreases lines@.len() - i,
    {
        proof {
            assert(lines.deep_view()[i as int] == lines@[i as int].deep_view());
            assert(lines@[i as int].deep_view() =~= lines@[i as int]@);
            assert(tail.take(i + 1 - from).drop_last() =~= tail.take(i - from));
            assert(tail.take(i + 1 - from).last() == tail[i - from]);
            assert(tail[i - from] == lines.deep_view()[i as int]);
        }
        let p = match parse_header_line(lines[i].as_slice()) {
            Some(p) => p,
            None => {
                proof {
                    lemma_header_lines_err_to_end(tail, i + 1 - from);
                }
                return None;
            },
        };
        let ghost before = pairs.deep_view();
        pairs.push(p);
        proof {
            assert forall|k: int| 0 <= k < pairs.deep_view().len() implies pairs.deep_view()[k]
                == before.push((p.0@, p.1@))[k] by {
                assert(pairs.deep_view()[k] == pairs@[k].deep_view());
            }
            assert(pairs.deep_view() =~= before.push((p.0@, p.1@)));
        }
        i = i + 1;
    }
    proof {
        assert(tail.take(lines@.len() - from) =~= tail);
    }
    Some(pairs)
}

/// One offending line fails the whole header block.
proof fn lemma_header_lines_err_to_end(lines: Seq<Seq<u8>>, k: int)
    requires
        0 <= k <= lines.len(),
        parse_header_lines_spec(lines.take(k)) is None,
    ensures
        parse_header_lines_spec(lines) is None,
    decreases lines.len() - k,
{
    if k == lines.len() {
        assert(lines.take(k) =~= lines);
    } else {
        assert(lines.take(k + 1).drop_last() =~= lines.take(k));
        lemma_header_lines_err_to_end(lines, k + 1);
    }
}

/// Reads a whole request head from extracted lines.
pub fn parse_request_head(lines: &Vec<Vec<u8>>) -> (r: Option<
    (Vec<u8>, Vec<u8>, Vec<u8>, Vec<(Vec<u8>, Vec<u8>)>),
>)
    ensures
        match r {
            Some((m, t, v, pairs)) => parse_request_head_spec(lines.deep_view()) matches Some(s)
                && m@ == s.0 && t@ == s.1 && v@ == s.2 && pairs.deep_view() == s.3,
            None => parse_request_head_spec(lines.deep_view()) is None,
        },
{
    if lines.len() == 0 {
        return None;
    }
    proof {
        assert(lines.deep_view()[0] == lines@[0].deep_view());
        assert(lines@[0].deep_view() =~= lines@[0]@);
    }
    let (method, target, ver) = match parse_request_line(lines[0].as_slice()) {
        Some(x) => x,
        None => {
            return None;
        },
    };
    let pairs = match parse_header_lines(lines, 1) {
        Some(p) => p,
        None => {
            return None;
        },
    };
    Some((method, target, ver, pairs))
}

/// Reads a whole response head from extracted lines.
pub fn parse_response_head(lines: &Vec<Vec<u8>>) -> (r: Option<
    (u16, Vec<u8>, Vec<u8>, Vec<(Vec<u8>, Vec<u8>)>),
>)
    ensures
        match r {
            Some((code, reason, v, pairs)) => parse_response_head_spec(lines.deep_view()) matches
                Some(s) && code as nat == s.0 && reason@ == s.1 && v@ == s.2 && pairs.deep_view()
                == s.3,
            None => parse_response_head_spec(lines.deep_view()) is None,
        },
{
    if lines.len() == 0 {
        return None;
    }
    proof {
        assert(lines.deep_view()[0] == lines@[0].deep_view());
        assert(lines@[0].deep_view() =~= lines@[0]@);
    }
    let (code, reason, ver) = match parse_status_line(lines[0].as_slice()) {
        Some(x) => x,
        None => {
            return None;
        },
    };
    let pairs = match parse_header_lines(lines, 1) {
        Some(p) => p,
        None => {
            return None;
        },
    };
    Some((code, reason, ver, pairs))
}


/// A line that may stand inside a message head: nonempty and free of
/// carriage returns.
pub open spec fn line_ok(l: Seq<u8>) -> bool {
    l.len() > 0 && (forall|i: int| 0 <= i < l.len() ==> #[trigger] l[i] != cr())
}

/// Lines joined by CRLF separators, without a trailing separator.
pub open spec fn join_lines(lines: Seq<Seq<u8>>) -> Seq<u8>
    decreases lines.len(),
{
    if lines.len() == 0 {
        Seq::empty()
    } else if lines.len() == 1 {
        lines[0]
    } else {
        lines[0] + crlf_seq() + join_lines(lines.drop_first())
    }
}

/// The serialized form of one header entry, without its CRLF.
pub open spec fn entry_line(t: (Seq<u8>, Seq<u8>, Seq<u8>)) -> Seq<u8> {
    t.0 + seq![':' as u8, ' ' as u8] + t.2
}

/// The serialized lines of a header list.
pub open spec fn entry_lines(items: Seq<(Seq<u8>, Seq<u8>, Seq<u8>)>) -> Seq<Seq<u8>> {
    items.map_values(|t: (Seq<u8>, Seq<u8>, Seq<u8>)| entry_line(t))
}

/// No blank line starts inside the joined lines when each line is
/// nonempty and CR-free and a CRLF follows the join.
proof fn lemma_no_blank_in_join(lines: Seq<Seq<u8>>, tail: Seq<u8>)
    requires
        lines.len() > 0,
        forall|k: int| 0 <= k < lines.len() ==> line_ok(#[trigger] lines[k]),
        tail.len() >= 2,
        tail[0] == cr(),
        tail[1] == lf(),
    ensures
        forall|p: int|
            0 <= p < join_lines(lines).len() ==> !crate::receive_buffer::is_blank_at(
                join_lines(lines) + tail,
                p,
            ),
    decreases lines.len(),
{
    let bytes = join_lines(lines) + tail;
    if lines.len() == 1 {
        assert forall|p: int| 0 <= p < join_lines(lines).len() implies !crate::receive_buffer::is_blank_at(
            bytes,
            p,
        ) by {
            assert(bytes[p] == lines[0][p]);
        }
    } else {
        let l0 = lines[0];
        let rest = lines.drop_first();
        let inner = join_lines(rest) + tail;
        assert(rest.len() > 0);
        assert forall|k: int| 0 <= k < rest.len() implies line_ok(#[trigger] rest[k]) by {
            assert(rest[k] == lines[k + 1]);
        }
        lemma_no_blank_in_join(rest, tail);
        assert(bytes =~= l0 + crlf_seq() + inner);
        assert(join_lines(rest)[0] == rest[0][0]) by {
            if rest.len() == 1 {
            } else {
                assert(join_lines(rest) == rest[0] + crlf_seq() + join_lines(rest.drop_first()));
            }
        }
        assert forall|p: int| 0 <= p < join_lines(lines).len() implies !crate::receive_buffer::is_blank_at(
            bytes,
            p,
        ) by {
            if p < l0.len() {
                assert(bytes[p] == l0[p]);
            } else if p == l0.len() {
                assert(bytes[p + 2] == inner[0]);
                assert(inner[0] == rest[0][0]);
            } else if p == l0.len() + 1 {
                assert(bytes[p] == lf());
            } else {
                let q = p - (l0.len() + 2);
                assert(0 <= q < join_lines(rest).len());
                assert(!crate::receive_buffer::is_blank_at(inner, q));
                assert(bytes[p] == inner[q]);
                assert(bytes[p + 1] == inner[q + 1]);
                if q + 2 < inner.len() {
                    assert(bytes[p + 2] == inner[q + 2]);
                }
                if q + 3 < inner.len() {
                    assert(bytes[p + 3] == inner[q + 3]);
                }
            }
        }
    }
}

/// Splitting the joined lines on CRLF gives the lines back.
proof fn lemma_split_join(lines: Seq<Seq<u8>>)
    requires
        lines.len() > 0,
        forall|k: int| 0 <= k < lines.len() ==> line_ok(#[trigger] lines[k]),
    ensures
        split_crlf(join_lines(lines)) =~= lines,
    decreases lines.len(),
{
    let joined = join_lines(lines);
    if lines.len() == 1 {
        assert forall|j: int| 0 <= j < joined.len() implies !crate::receive_buffer::is_crlf_at(
            joined,
            j,
        ) by {
            assert(joined[j] == lines[0][j]);
        }
        lemma_first_crlf_at(joined, joined.len() as int);
        assert(split_crlf(joined) =~= seq![joined]);
    } else {
        let l0 = lines[0];
        let rest = lines.drop_first();
        assert forall|k: int| 0 <= k < rest.len() implies line_ok(#[trigger] rest[k]) by {
            assert(rest[k] == lines[k + 1]);
        }
        lemma_split_join(rest);
        assert forall|j: int| 0 <= j < l0.len() implies !crate::receive_buffer::is_crlf_at(
            joined,
            j,
        ) by {
            assert(joined[j] == l0[j]);
        }
        assert(joined[l0.len() as int] == cr());
        assert(joined[l0.len() as int + 1] == lf());
        lemma_first_crlf_at(joined, l0.len() as int);
        assert(first_crlf(joined, 0) == l0.len());
        assert(joined.take(l0.len() as int) =~= l0);
        assert(joined.skip(l0.len() as int + 2) =~= join_lines(rest));
        assert(split_crlf(joined) =~= seq![l0] + split_crlf(join_lines(rest)));
        assert(seq![l0] + rest =~= lines);
    }
}

/// Appending one more line extends the join by a separator and the
/// line.
proof fn lemma_join_push(lines: Seq<Seq<u8>>, l: Seq<u8>)
    requires
        lines.len() > 0,
    ensures
        join_lines(lines.push(l)) =~= join_lines(lines) + crlf_seq() + l,
    decreases lines.len(),
{
    let pushed = lines.push(l);
    if lines.len() == 1 {
        assert(pushed.len() == 2);
        assert(pushed[0] == lines[0]);
        assert(pushed.drop_first() =~= seq![l]);
        assert(join_lines(seq![l]) == l);
    } else {
        lemma_join_push(lines.drop_first(), l);
        assert(pushed.drop_first() =~= lines.drop_first().push(l));
        assert(pushed[0] == lines[0]);
    }
}

/// A rendered header list is its entry lines joined, with one
/// trailing CRLF.
proof fn lemma_render_list_join(items: Seq<(Seq<u8>, Seq<u8>, Seq<u8>)>)
    requires
        items.len() > 0,
    ensures
        render_list(items) =~= join_lines(entry_lines(items)) + crlf_seq(),
    decreases items.len(),
{
    if items.len() == 1 {
        assert(render_list(items.drop_last()) =~= Seq::<u8>::empty()) by {
            assert(items.drop_last() =~= Seq::<(Seq<u8>, Seq<u8>, Seq<u8>)>::empty());
        }
        assert(entry_lines(items) =~= seq![entry_line(items[0])]);
        assert(join_lines(entry_lines(items)) == entry_lines(items)[0]);
        assert(render_entry(items.last()) =~= entry_line(items[0]) + crlf_seq());
    } else {
        lemma_render_list_join(items.drop_last());
        assert(entry_lines(items) =~= entry_lines(items.drop_last()).push(
            entry_line(items.last()),
        ));
        lemma_join_push(entry_lines(items.drop_last()), entry_line(items.last()));
        assert(render_entry(items.last()) =~= entry_line(items.last()) + crlf_seq());
    }
}

/// An entry of the host-fronted arrangement is an entry of the
/// list it was arranged from.
pub proof fn lemma_sel_host_in_items(
    items: Seq<(Seq<u8>, Seq<u8>, Seq<u8>)>,
    entry: (Seq<u8>, Seq<u8>, Seq<u8>),
)
    requires
        (sel_host(items, true) + sel_host(items, false)).contains(entry),
    ensures
        exists|j: int| 0 <= j < items.len() && entry == #[trigger] items[j],
{
    lemma_sel_host_elems(items, true);
    lemma_sel_host_elems(items, false);
    let fronted = sel_host(items, true) + sel_host(items, false);
    let k = choose|k: int| 0 <= k < fronted.len() && fronted[k] == entry;
    if k < sel_host(items, true).len() {
        assert(fronted[k] == sel_host(items, true)[k]);
        let j = choose|j: int| 0 <= j < items.len() && sel_host(items, true)[k] == items[j];
        assert(entry == items[j]);
    } else {
        assert(fronted[k] == sel_host(items, false)[k - sel_host(items, true).len()]);
        let j = choose|j: int|
            0 <= j < items.len() && sel_host(items, false)[k - sel_host(items, true).len()]
                == items[j];
        assert(entry == items[j]);
    }
}

/// Every selected entry is one of the entries selected from.
proof fn lemma_sel_host_elems(items: Seq<(Seq<u8>, Seq<u8>, Seq<u8>)>, want_host: bool)
    ensures
        forall|k: int|
            0 <= k < sel_host(items, want_host).len() ==> exists|j: int|
                0 <= j < items.len() && #[trigger] sel_host(items, want_host)[k] == items[j],
    decreases items.len(),
{
    if items.len() == 0 {
    } else {
        lemma_sel_host_elems(items.drop_last(), want_host);
        assert forall|k: int| 0 <= k < sel_host(items, want_host).len() implies exists|j: int|
            0 <= j < items.len() && #[trigger] sel_host(items, want_host)[k] == items[j] by {
            let prev = sel_host(items.drop_last(), want_host);
            if k < prev.len() {
                assert(sel_host(items, want_host)[k] == prev[k]);
                let j = choose|j: int|
                    0 <= j < items.drop_last().len() && prev[k] == items.drop_last()[j];
                assert(items.drop_last()[j] == items[j]);
                assert(sel_host(items, want_host)[k] == items[j]);
            } else {
                assert(sel_host(items, want_host)[k] == items.last());
                assert(items.last() == items[items.len() - 1]);
            }
        }
    }
}

/// What a request head serializes to, seen as lines: the request
/// line, then the host-fronted entry lines, and a blank line.
proof fn lemma_render_request_structure(
    method: Seq<u8>,
    target: Seq<u8>,
    items: Seq<(Seq<u8>, Seq<u8>, Seq<u8>)>,
)
    ensures
        ({
            let reqline = method + seq![' ' as u8] + target + seq![' ' as u8] + http11_token();
            let fronted = sel_host(items, true) + sel_host(items, false);
            render_request(method, target, items) =~= join_lines(
                seq![reqline] + entry_lines(fronted),
            ) + crlf_seq() + crlf_seq()
        }),
{
    let reqline = method + seq![' ' as u8] + target + seq![' ' as u8] + http11_token();
    let fronted = sel_host(items, true) + sel_host(items, false);
    crate::writers::lemma_render_list_add(sel_host(items, true), sel_host(items, false));
    if fronted.len() == 0 {
        assert(render_list(fronted) =~= Seq::<u8>::empty());
        assert(render_list(sel_host(items, true)) + render_list(sel_host(items, false))
            =~= render_list(fronted));
        assert(entry_lines(fronted) =~= Seq::<Seq<u8>>::empty());
        assert(seq![reqline] + entry_lines(fronted) =~= seq![reqline]);
        assert(join_lines(seq![reqline]) == reqline);
        assert(render_headers(items) =~= crlf_seq());
    } else {
        lemma_render_list_join(fronted);
        let lines = seq![reqline] + entry_lines(fronted);
        assert(lines.len() >= 2);
        assert(lines[0] == reqline);
        assert(lines.drop_first() =~= entry_lines(fronted));
        assert(join_lines(lines) =~= reqline + crlf_seq() + join_lines(entry_lines(fronted)));
        assert(render_headers(items) =~= render_list(fronted) + crlf_seq());
    }
}

/// What a response head serializes to, seen as lines.
proof fn lemma_render_response_structure(
    status_code: u16,
    reason: Seq<u8>,
    items: Seq<(Seq<u8>, Seq<u8>, Seq<u8>)>,
)
    ensures
        ({
            let statline = http11_token() + seq![' ' as u8] + dec_seq(status_code as nat)
                + seq![' ' as u8] + reason;
            let fronted = sel_host(items, true) + sel_host(items, false);
            render_response(status_code, reason, items) =~= join_lines(
                seq![statline] + entry_lines(fronted),
            ) + crlf_seq() + crlf_seq()
        }),
{
    let statline = http11_token() + seq![' ' as u8] + dec_seq(status_code as nat)
        + seq![' ' as u8] + reason;
    let fronted = sel_host(items, true) + sel_host(items, false);
    crate::writers::lemma_render_list_add(sel_host(items, true), sel_host(items, false));
    if fronted.len() == 0 {
        assert(render_list(fronted) =~= Seq::<u8>::empty());
        assert(render_list(sel_host(items, true)) + render_list(sel_host(items, false))
            =~= render_list(fronted));
        assert(entry_lines(fronted) =~= Seq::<Seq<u8>>::empty());
        assert(seq![statline] + entry_lines(fronted) =~= seq![statline]);
        assert(join_lines(seq![statline]) == statline);
        assert(render_headers(items) =~= crlf_seq());
    } else {
        lemma_render_list_join(fronted);
        let lines = seq![statline] + entry_lines(fronted);
        assert(lines.len() >= 2);
        assert(lines[0] == statline);
        assert(lines.drop_first() =~= entry_lines(fronted));
        assert(join_lines(lines) =~= statline + crlf_seq() + join_lines(entry_lines(fronted)));
        assert(render_headers(items) =~= render_list(fronted) + crlf_seq());
    }
}

/// Parsing the serialized request line gives the fields back.
proof fn lemma_parse_request_line_rt(method: Seq<u8>, target: Seq<u8>)
    requires
        is_token(method),
        is_vchar_run(target),
    ensures
        parse_request_line_spec(
            method + seq![' ' as u8] + target + seq![' ' as u8] + http11_token(),
        ) == Some((method, target, crate::events::http11_label())),
{
    let line = method + seq![' ' as u8] + target + seq![' ' as u8] + http11_token();
    assert forall|j: int| 0 <= j < method.len() implies line[j] != ' ' as u8 by {
        assert(line[j] == method[j]);
        assert(is_token_byte(method[j]));
    }
    assert(line[method.len() as int] == ' ' as u8);
    lemma_find_byte_at(line, ' ' as u8, method.len() as int);
    assert(line.take(method.len() as int) =~= method);
    let rest = line.skip(method.len() as int + 1);
    assert(rest =~= target + seq![' ' as u8] + http11_token());
    assert forall|j: int| 0 <= j < target.len() implies rest[j] != ' ' as u8 by {
        assert(rest[j] == target[j]);
        assert(is_vchar_byte(target[j]));
    }
    assert(rest[target.len() as int] == ' ' as u8);
    lemma_find_byte_at(rest, ' ' as u8, target.len() as int);
    assert(rest.take(target.len() as int) =~= target);
    let ver = rest.skip(target.len() as int + 1);
    assert(ver =~= http11_token());
    assert(ver.take(5) =~= http11_token().take(5));
    assert(is_digit_byte(ver[5]));
    assert(ver[6] == '.' as u8);
    assert(is_digit_byte(ver[7]));
    assert(ver.skip(5) =~= crate::events::http11_label());
}

/// A number with three decimal digits renders to three bytes.
proof fn lemma_dec_seq_len3(n: nat)
    requires
        100 <= n < 1000,
    ensures
        dec_seq(n).len() == 3,
{
    assert(10 <= n / 10 < 100);
    assert(1 <= n / 10 / 10 < 10);
    assert(dec_seq(n / 10 / 10).len() == 1);
    assert(dec_seq(n / 10).len() == 2);
}

/// Parsing the serialized status line gives the fields back.
#[verifier::rlimit(50)]
proof fn lemma_parse_status_line_rt(status_code: u16, reason: Seq<u8>)
    requires
        100 <= status_code < 1000,
    ensures
        parse_status_line_spec(
            http11_token() + seq![' ' as u8] + dec_seq(status_code as nat) + seq![' ' as u8]
                + reason,
        ) == Some((status_code as nat, reason, crate::events::http11_label())),
{
    let digits = dec_seq(status_code as nat);
    lemma_dec_seq_len3(status_code as nat);
    lemma_dec_round_trip(status_code as nat);
    let line = http11_token() + seq![' ' as u8] + digits + seq![' ' as u8] + reason;
    assert(line.len() >= 9);
    assert(line.take(5) =~= http11_token().take(5));
    assert(line[5] == '1' as u8);
    assert(line[6] == '.' as u8);
    assert(line[7] == '1' as u8);
    assert(line[8] == ' ' as u8);
    let rest = line.skip(9);
    assert(rest =~= digits + seq![' ' as u8] + reason);
    assert forall|j: int| 0 <= j < 3 implies rest[j] != ' ' as u8 by {
        assert(rest[j] == digits[j]);
        assert(is_digit_byte(digits[j]));
    }
    assert(rest[3] == ' ' as u8);
    lemma_find_byte_at(rest, ' ' as u8, 3);
    assert(rest.take(3) =~= digits);
    assert(rest.skip(4) =~= reason);
    assert(line.subrange(5, 8) =~= crate::events::http11_label());
}

/// A nonempty value that trimming leaves unchanged neither starts
/// nor ends with whitespace.
proof fn lemma_self_trimmed(v: Seq<u8>)
    requires
        trim_seq(v) == v,
        v.len() > 0,
    ensures
        !is_ws_byte(v[0]),
        !is_ws_byte(v.last()),
{
    crate::ascii::lemma_leading_ws_bounds(v);
    crate::ascii::lemma_trailing_ws_bounds(v);
    if crate::ascii::leading_ws(v) == v.len() {
        assert(trim_seq(v).len() == 0);
    } else {
        if crate::ascii::leading_ws(v) + crate::ascii::trailing_ws(v) > v.len() {
            assert(is_ws_byte(v[crate::ascii::leading_ws(v) as int]));
        }
        assert(trim_seq(v).len() == v.len() - crate::ascii::leading_ws(v)
            - crate::ascii::trailing_ws(v));
        assert(crate::ascii::leading_ws(v) == 0 && crate::ascii::trailing_ws(v) == 0);
        if is_ws_byte(v[0]) {
            assert(crate::ascii::leading_ws(v) >= 1);
        }
        if is_ws_byte(v.last()) {
            assert(crate::ascii::trailing_ws(v) >= 1);
        }
    }
}

/// Parsing a serialized header line gives the raw name and value
/// back.
proof fn lemma_parse_header_line_rt(t: (Seq<u8>, Seq<u8>, Seq<u8>))
    requires
        is_token(t.0),
        is_printable(t.2),
        trim_seq(t.2) == t.2,
    ensures
        parse_header_line_spec(entry_line(t)) == Some((t.0, t.2)),
{
    let line = entry_line(t);
    assert forall|j: int| 0 <= j < t.0.len() implies line[j] != ':' as u8 by {
        assert(line[j] == t.0[j]);
        assert(is_token_byte(t.0[j]));
    }
    assert(line[t.0.len() as int] == ':' as u8);
    lemma_find_byte_at(line, ':' as u8, t.0.len() as int);
    assert(line.take(t.0.len() as int) =~= t.0);
    let after = line.skip(t.0.len() as int + 1);
    assert(after =~= seq![' ' as u8] + t.2);
    lemma_self_trimmed(t.2);
    lemma_trim_characterization(after, 1, after.len() as int);
    assert(after.subrange(1, after.len() as int) =~= t.2);
}

/// Parsing the serialized entry lines gives the raw/value pairs
/// back.
proof fn lemma_parse_entry_lines_rt(items: Seq<(Seq<u8>, Seq<u8>, Seq<u8>)>)
    requires
        forall|k: int|
            0 <= k < items.len() ==> is_token((#[trigger] items[k]).0) && is_printable(
                items[k].2,
            ) && trim_seq(items[k].2) == items[k].2,
    ensures
        parse_header_lines_spec(entry_lines(items)) == Some(raw_value_pairs(items)),
    decreases items.len(),
{
    if items.len() == 0 {
        assert(entry_lines(items) =~= Seq::<Seq<u8>>::empty());
        assert(raw_value_pairs(items) =~= Seq::<(Seq<u8>, Seq<u8>)>::empty());
    } else {
        assert forall|k: int| 0 <= k < items.drop_last().len() implies is_token(
            (#[trigger] items.drop_last()[k]).0,
        ) && is_printable(items.drop_last()[k].2) && trim_seq(items.drop_last()[k].2)
            == items.drop_last()[k].2 by {
            assert(items.drop_last()[k] == items[k]);
        }
        lemma_parse_entry_lines_rt(items.drop_last());
        lemma_parse_header_line_rt(items.last());
        assert(entry_lines(items).drop_last() =~= entry_lines(items.drop_last()));
        assert(entry_lines(items).last() == entry_line(items.last()));
        assert(raw_value_pairs(items) =~= raw_value_pairs(items.drop_last()).push(
            (items.last().0, items.last().2),
        ));
    }
}

/// The request line contains no carriage return and is nonempty.
proof fn lemma_reqline_ok(method: Seq<u8>, target: Seq<u8>)
    requires
        is_token(method),
        is_vchar_run(target),
    ensures
        line_ok(method + seq![' ' as u8] + target + seq![' ' as u8] + http11_token()),
{
    let line = method + seq![' ' as u8] + target + seq![' ' as u8] + http11_token();
    assert forall|i: int| 0 <= i < line.len() implies #[trigger] line[i] != cr() by {
        if i < method.len() {
            assert(line[i] == method[i]);
            assert(is_token_byte(method[i]));
        } else if i == method.len() {
            assert(line[i] == ' ' as u8);
        } else if i < method.len() + 1 + target.len() {
            assert(line[i] == target[i - method.len() - 1]);
            assert(is_vchar_byte(target[i - method.len() - 1]));
        } else if i == method.len() + 1 + target.len() {
            assert(line[i] == ' ' as u8);
        } else {
            assert(line[i] == http11_token()[i - method.len() - 2 - target.len()]);
        }
    }
}

/// The status line contains no carriage return and is nonempty when
/// the reason does not carry one.
proof fn lemma_statline_ok(status_code: u16, reason: Seq<u8>)
    requires
        100 <= status_code < 1000,
        forall|i: int| 0 <= i < reason.len() ==> #[trigger] reason[i] != cr(),
    ensures
        line_ok(
            http11_token() + seq![' ' as u8] + dec_seq(status_code as nat) + seq![' ' as u8]
                + reason,
        ),
{
    let digits = dec_seq(status_code as nat);
    lemma_dec_seq_len3(status_code as nat);
    lemma_dec_round_trip(status_code as nat);
    let line = http11_token() + seq![' ' as u8] + digits + seq![' ' as u8] + reason;
    assert forall|i: int| 0 <= i < line.len() implies #[trigger] line[i] != cr() by {
        if i < 8 {
            assert(line[i] == http11_token()[i]);
        } else if i == 8 {
            assert(line[i] == ' ' as u8);
        } else if i < 12 {
            assert(line[i] == digits[i - 9]);
            assert(is_digit_byte(digits[i - 9]));
        } else if i == 12 {
            assert(line[i] == ' ' as u8);
        } else {
            assert(line[i] == reason[i - 13]);
        }
    }
}

/// A serialized header entry line contains no carriage return and is
/// nonempty.
proof fn lemma_entry_line_ok(t: (Seq<u8>, Seq<u8>, Seq<u8>))
    requires
        is_token(t.0),
        is_printable(t.2),
    ensures
        line_ok(entry_line(t)),
{
    let line = entry_line(t);
    assert forall|i: int| 0 <= i < line.len() implies #[trigger] line[i] != cr() by {
        if i < t.0.len() {
            assert(line[i] == t.0[i]);
            assert(is_token_byte(t.0[i]));
        } else if i == t.0.len() {
            assert(line[i] == ':' as u8);
        } else if i == t.0.len() + 1 {
            assert(line[i] == ' ' as u8);
        } else {
            assert(line[i] == t.2[i - t.0.len() - 2]);
            assert(crate::ascii::is_printable_byte(t.2[i - t.0.len() - 2]));
        }
    }
}

/// Round trip of a request head: serializing a request whose fields
/// satisfy the wire grammar and whose header values carry no
/// surrounding whitespace, then splitting the bytes at the blank
/// line and parsing the lines, returns the method, target, version
/// and exactly the host-fronted `(raw_name, value)` pairs.
pub proof fn lemma_request_head_round_trip(
    method: Seq<u8>,
    target: Seq<u8>,
    items: Seq<(Seq<u8>, Seq<u8>, Seq<u8>)>,
)
    requires
        is_token(method),
        is_vchar_run(target),
        forall|k: int|
            0 <= k < items.len() ==> is_token((#[trigger] items[k]).0) && is_printable(
                items[k].2,
            ) && trim_seq(items[k].2) == items[k].2,
    ensures
        ({
            let bytes = render_request(method, target, items);
            let b = first_blank(bytes, 0);
            &&& b == bytes.len() - 4
            &&& parse_request_head_spec(split_crlf(bytes.take(b as int))) == Some(
                (
                    method,
                    target,
                    crate::events::http11_label(),
                    raw_value_pairs(sel_host(items, true) + sel_host(items, false)),
                ),
            )
        }),
{
    let reqline = method + seq![' ' as u8] + target + seq![' ' as u8] + http11_token();
    let fronted = sel_host(items, true) + sel_host(items, false);
    let lines = seq![reqline] + entry_lines(fronted);
    let bytes = render_request(method, target, items);
    lemma_render_request_structure(method, target, items);
    lemma_sel_host_elems(items, true);
    lemma_sel_host_elems(items, false);
    assert forall|k: int| 0 <= k < fronted.len() implies is_token((#[trigger] fronted[k]).0)
        && is_printable(fronted[k].2) && trim_seq(fronted[k].2) == fronted[k].2 by {
        if k < sel_host(items, true).len() {
            assert(fronted[k] == sel_host(items, true)[k]);
            let j = choose|j: int|
                0 <= j < items.len() && sel_host(items, true)[k] == items[j];
            assert(fronted[k] == items[j]);
        } else {
            assert(fronted[k] == sel_host(items, false)[k - sel_host(items, true).len()]);
            let j = choose|j: int|
                0 <= j < items.len() && sel_host(items, false)[k - sel_host(
                    items,
                    true,
                ).len()] == items[j];
            assert(fronted[k] == items[j]);
        }
    }
    lemma_reqline_ok(method, target);
    assert forall|k: int| 0 <= k < lines.len() implies line_ok(#[trigger] lines[k]) by {
        if k == 0 {
            assert(lines[0] == reqline);
        } else {
            assert(lines[k] == entry_lines(fronted)[k - 1]);
            assert(entry_lines(fronted)[k - 1] == entry_line(fronted[k - 1]));
            lemma_entry_line_ok(fronted[k - 1]);
        }
    }
    let joined = join_lines(lines);
    let tail = crlf_seq() + crlf_seq();
    assert(bytes =~= joined + tail);
    lemma_no_blank_in_join(lines, tail);
    assert forall|p: int| 0 <= p < joined.len() implies !crate::receive_buffer::is_blank_at(
        bytes,
        p,
    ) by {
        assert(!crate::receive_buffer::is_blank_at(joined + tail, p));
    }
    assert(crate::receive_buffer::is_blank_at(bytes, joined.len() as int)) by {
        assert(bytes[joined.len() as int] == tail[0]);
        assert(bytes[joined.len() as int + 1] == tail[1]);
        assert(bytes[joined.len() as int + 2] == tail[2]);
        assert(bytes[joined.len() as int + 3] == tail[3]);
    }
    lemma_first_blank_at(bytes, joined.len() as int);
    assert(first_blank(bytes, 0) == joined.len());
    assert(bytes.len() == joined.len() + 4);
    assert(bytes.take(joined.len() as int) =~= joined);
    lemma_split_join(lines);
    assert(split_crlf(joined) =~= lines);
    lemma_parse_request_line_rt(method, target);
    assert(lines[0] == reqline);
    assert(lines.skip(1) =~= entry_lines(fronted));
    lemma_parse_entry_lines_rt(fronted);
}

/// Round trip of a response head, the dual of the request case; the
/// reason must not carry a carriage return.
pub proof fn lemma_response_head_round_trip(
    status_code: u16,
    reason: Seq<u8>,
    items: Seq<(Seq<u8>, Seq<u8>, Seq<u8>)>,
)
    requires
        100 <= status_code < 1000,
        forall|i: int| 0 <= i < reason.len() ==> #[trigger] reason[i] != cr(),
        forall|k: int|
            0 <= k < items.len() ==> is_token((#[trigger] items[k]).0) && is_printable(
                items[k].2,
            ) && trim_seq(items[k].2) == items[k].2,
    ensures
        ({
            let bytes = render_response(status_code, reason, items);
            let b = first_blank(bytes, 0);
            &&& b == bytes.len() - 4
            &&& parse_response_head_spec(split_crlf(bytes.take(b as int))) == Some(
                (
                    status_code as nat,
                    reason,
                    crate::events::http11_label(),
                    raw_value_pairs(sel_host(items, true) + sel_host(items, false)),
                ),
            )
        }),
{
    let statline = http11_token() + seq![' ' as u8] + dec_seq(status_code as nat)
        + seq![' ' as u8] + reason;
    let fronted = sel_host(items, true) + sel_host(items, false);
    let lines = seq![statline] + entry_lines(fronted);
    let bytes = render_response(status_code, reason, items);
    lemma_render_response_structure(status_code, reason, items);
    lemma_sel_host_elems(items, true);
    lemma_sel_host_elems(items, false);
    assert forall|k: int| 0 <= k < fronted.len() implies is_token((#[trigger] fronted[k]).0)
        && is_printable(fronted[k].2) && trim_seq(fronted[k].2) == fronted[k].2 by {
        if k < sel_host(items, true).len() {
            assert(fronted[k] == sel_host(items, true)[k]);
            let j = choose|j: int|
                0 <= j < items.len() && sel_host(items, true)[k] == items[j];
            assert(fronted[k] == items[j]);
        } else {
            assert(fronted[k] == sel_host(items, false)[k - sel_host(items, true).len()]);
            let j = choose|j: int|
                0 <= j < items.len() && sel_host(items, false)[k - sel_host(
                    items,
                    true,
                ).len()] == items[j];
            assert(fronted[k] == items[j]);
        }
    }
    lemma_statline_ok(status_code, reason);
    assert forall|k: int| 0 <= k < lines.len() implies line_ok(#[trigger] lines[k]) by {
        if k == 0 {
            assert(lines[0] == statline);
        } else {
            assert(lines[k] == entry_lines(fronted)[k - 1]);
            assert(entry_lines(fronted)[k - 1] == entry_line(fronted[k - 1]));
            lemma_entry_line_ok(fronted[k - 1]);
        }
    }
    let joined = join_lines(lines);
    let tail = crlf_seq() + crlf_seq();
    assert(bytes =~= joined + tail);
    lemma_no_blank_in_join(lines, tail);
    assert forall|p: int| 0 <= p < joined.len() implies !crate::receive_buffer::is_blank_at(
        bytes,
        p,
    ) by {
        assert(!crate::receive_buffer::is_blank_at(joined + tail, p));
    }
    assert(crate::receive_buffer::is_blank_at(bytes, joined.len() as int)) by {
        assert(bytes[joined.len() as int] == tail[0]);
        assert(bytes[joined.len() as int + 1] == tail[1]);
        assert(bytes[joined.len() as int + 2] == tail[2]);
        assert(bytes[joined.len() as int + 3] == tail[3]);
    }
    lemma_first_blank_at(bytes, joined.len() as int);
    assert(first_blank(bytes, 0) == joined.len());
    assert(bytes.len() == joined.len() + 4);
    assert(bytes.take(joined.len() as int) =~= joined);
    lemma_split_join(lines);
    assert(split_crlf(joined) =~= lines);
    lemma_parse_status_line_rt(status_code, reason);
    assert(lines[0] == statline);
    assert(lines.skip(1) =~= entry_lines(fronted));
    lemma_parse_entry_lines_rt(fronted);
}


proof fn lemma_count_name_add(
    a: Seq<(Seq<u8>, Seq<u8>, Seq<u8>)>,
    b: Seq<(Seq<u8>, Seq<u8>, Seq<u8>)>,
    name: Seq<u8>,
)
    ensures
        crate::headers::count_name(a + b, name) == crate::headers::count_name(a, name)
            + crate::headers::count_name(b, name),
    decreases b.len(),
{
    if b.len() == 0 {
        assert(a + b =~= a);
    } else {
        lemma_count_name_add(a, b.drop_last(), name);
        assert((a + b).drop_last() =~= a + b.drop_last());
        assert((a + b).last() == b.last());
    }
}

/// Fronting the `Host` entries permutes the list, so every name
/// keeps its count.
pub proof fn lemma_fronted_counts(items: Seq<(Seq<u8>, Seq<u8>, Seq<u8>)>, name: Seq<u8>)
    ensures
        crate::headers::count_name(
            sel_host(items, true) + sel_host(items, false),
            name,
        ) == crate::headers::count_name(items, name),
    decreases items.len(),
{
    if items.len() == 0 {
        assert(sel_host(items, true) =~= Seq::<(Seq<u8>, Seq<u8>, Seq<u8>)>::empty());
        assert(sel_host(items, false) =~= Seq::<(Seq<u8>, Seq<u8>, Seq<u8>)>::empty());
        assert(sel_host(items, true) + sel_host(items, false) =~= Seq::<
            (Seq<u8>, Seq<u8>, Seq<u8>),
        >::empty());
    } else {
        let prev = items.drop_last();
        let last = items.last();
        lemma_fronted_counts(prev, name);
        lemma_count_name_add(sel_host(prev, true), sel_host(prev, false), name);
        lemma_count_name_add(sel_host(items, true), sel_host(items, false), name);
        if last.1 == crate::headers::host_label() {
            assert(sel_host(items, true) =~= sel_host(prev, true) + seq![last]);
            assert(sel_host(items, false) =~= sel_host(prev, false));
            lemma_count_name_add(sel_host(prev, true), seq![last], name);
            assert(crate::headers::count_name(seq![last], name) == (if last.1 == name {
                1nat
            } else {
                0nat
            })) by {
                assert(seq![last].drop_last() =~= Seq::<(Seq<u8>, Seq<u8>, Seq<u8>)>::empty());
                assert(seq![last].last() == last);
                assert(crate::headers::count_name(seq![last].drop_last(), name) == 0);
            }
        } else {
            assert(sel_host(items, true) =~= sel_host(prev, true));
            assert(sel_host(items, false) =~= sel_host(prev, false) + seq![last]);
            lemma_count_name_add(sel_host(prev, false), seq![last], name);
            assert(crate::headers::count_name(seq![last], name) == (if last.1 == name {
                1nat
            } else {
                0nat
            })) by {
                assert(seq![last].drop_last() =~= Seq::<(Seq<u8>, Seq<u8>, Seq<u8>)>::empty());
                assert(seq![last].last() == last);
                assert(crate::headers::count_name(seq![last].drop_last(), name) == 0);
            }
        }
    }
}

/// The full request round trip at the event level: serializing the
/// validated header triples and parsing the bytes on the peer side
/// yields pairs that re-validate to exactly the host-fronted triples,
/// with the recorded Content-Length and Transfer-Encoding state
/// intact.
/// The host-fronted triples of a validated header set satisfy the
/// wire grammar entry for entry, carry no surrounding whitespace,
/// and re-validate to exactly themselves, with the recorded
/// Content-Length and Transfer-Encoding state intact.
pub proof fn lemma_fronted_renormalizes(pairs0: Seq<(Seq<u8>, Seq<u8>)>)
    requires
        crate::headers::normalize_fold(pairs0, false) is Ok,
        forall|k: int|
            0 <= k < crate::headers::normalize_fold(pairs0, false)->Ok_0.out.len()
                ==> trim_seq((#[trigger] crate::headers::normalize_fold(pairs0, false)->Ok_0.out[k]).2)
                == crate::headers::normalize_fold(pairs0, false)->Ok_0.out[k].2,
    ensures
        ({
            let acc = crate::headers::normalize_fold(pairs0, false)->Ok_0;
            let items = acc.out;
            let fronted = sel_host(items, true) + sel_host(items, false);
            &&& forall|k: int|
                0 <= k < fronted.len() ==> is_token((#[trigger] fronted[k]).0)
                    && crate::ascii::is_printable(fronted[k].2) && trim_seq(fronted[k].2)
                    == fronted[k].2
            &&& crate::headers::normalize_fold(raw_value_pairs(fronted), false)
                == Ok::<crate::headers::NormState, Seq<char>>(
                crate::headers::NormState {
                    out: fronted,
                    seen_content_length: acc.seen_content_length,
                    saw_transfer_encoding: acc.saw_transfer_encoding,
                },
            )
        }),
{
    let acc = crate::headers::normalize_fold(pairs0, false)->Ok_0;
    let items = acc.out;
    let fronted = sel_host(items, true) + sel_host(items, false);
    crate::headers::lemma_fold_wf(pairs0, false);
    crate::headers::lemma_fold_grammar(pairs0);
    lemma_sel_host_elems(items, true);
    lemma_sel_host_elems(items, false);
    assert forall|k: int| 0 <= k < fronted.len() implies exists|j: int|
        0 <= j < items.len() && #[trigger] fronted[k] == items[j] by {
        if k < sel_host(items, true).len() {
            assert(fronted[k] == sel_host(items, true)[k]);
            let j = choose|j: int| 0 <= j < items.len() && sel_host(items, true)[k] == items[j];
            assert(fronted[k] == items[j]);
        } else {
            assert(fronted[k] == sel_host(items, false)[k - sel_host(items, true).len()]);
            let j = choose|j: int|
                0 <= j < items.len() && sel_host(items, false)[k - sel_host(
                    items,
                    true,
                ).len()] == items[j];
            assert(fronted[k] == items[j]);
        }
    }
    assert forall|k: int| 0 <= k < fronted.len() implies is_token((#[trigger] fronted[k]).0)
        && crate::ascii::is_printable(fronted[k].2) && trim_seq(fronted[k].2) == fronted[k].2 by {
        let j = choose|j: int| 0 <= j < items.len() && fronted[k] == items[j];
    }
    lemma_fronted_counts(items, crate::headers::content_length_label());
    lemma_fronted_counts(items, crate::headers::transfer_encoding_label());
    assert forall|k: int| 0 <= k < fronted.len() implies (#[trigger] fronted[k]).1
        == crate::ascii::lower_seq(fronted[k].0) by {
        let j = choose|j: int| 0 <= j < items.len() && fronted[k] == items[j];
    }
    assert forall|k: int|
        0 <= k < fronted.len() && (#[trigger] fronted[k]).1
            == crate::headers::content_length_label() implies (crate::ascii::is_digits(
        fronted[k].2,
    ) && acc.seen_content_length == Some(fronted[k].2)) by {
        let j = choose|j: int| 0 <= j < items.len() && fronted[k] == items[j];
    }
    assert forall|k: int|
        0 <= k < fronted.len() && (#[trigger] fronted[k]).1
            == crate::headers::transfer_encoding_label() implies fronted[k].2
        == crate::headers::chunked_label() by {
        let j = choose|j: int| 0 <= j < items.len() && fronted[k] == items[j];
    }
    crate::headers::lemma_refold(fronted, acc.seen_content_length, acc.saw_transfer_encoding);
    assert forall|i: int| 0 <= i < raw_value_pairs(fronted).len() implies is_token(
        (#[trigger] raw_value_pairs(fronted)[i]).0,
    ) && crate::ascii::is_printable(raw_value_pairs(fronted)[i].1) by {
        assert(raw_value_pairs(fronted)[i] == (fronted[i].0, fronted[i].2));
    }
    crate::headers::lemma_fold_parsed_irrelevant(raw_value_pairs(fronted));
}

/// The full request round trip at the event level: serializing the
/// validated header triples and parsing the bytes on the peer side
/// yields pairs that re-validate to exactly the host-fronted triples,
/// with the recorded Content-Length and Transfer-Encoding state
/// intact.
pub proof fn lemma_request_event_round_trip(
    method: Seq<u8>,
    target: Seq<u8>,
    pairs0: Seq<(Seq<u8>, Seq<u8>)>,
)
    requires
        is_token(method),
        is_vchar_run(target),
        crate::headers::normalize_fold(pairs0, false) is Ok,
        forall|k: int|
            0 <= k < crate::headers::normalize_fold(pairs0, false)->Ok_0.out.len()
                ==> trim_seq((#[trigger] crate::headers::normalize_fold(pairs0, false)->Ok_0.out[k]).2)
                == crate::headers::normalize_fold(pairs0, false)->Ok_0.out[k].2,
    ensures
        ({
            let acc = crate::headers::normalize_fold(pairs0, false)->Ok_0;
            let items = acc.out;
            let fronted = sel_host(items, true) + sel_host(items, false);
            let bytes = render_request(method, target, items);
            let b = first_blank(bytes, 0);
            &&& b == bytes.len() - 4
            &&& parse_request_head_spec(split_crlf(bytes.take(b as int))) == Some(
                (method, target, crate::events::http11_label(), raw_value_pairs(fronted)),
            )
            &&& crate::headers::normalize_fold(raw_value_pairs(fronted), false)
                == Ok::<crate::headers::NormState, Seq<char>>(
                crate::headers::NormState {
                    out: fronted,
                    seen_content_length: acc.seen_content_length,
                    saw_transfer_encoding: acc.saw_transfer_encoding,
                },
            )
        }),
{
    let acc = crate::headers::normalize_fold(pairs0, false)->Ok_0;
    crate::headers::lemma_fold_grammar(pairs0);
    lemma_fronted_renormalizes(pairs0);
    lemma_request_head_round_trip(method, target, acc.out);
}

/// The full response round trip at the event level, the dual of the
/// request case; the reason must not carry a carriage return.
pub proof fn lemma_response_event_round_trip(
    status_code: u16,
    reason: Seq<u8>,
    pairs0: Seq<(Seq<u8>, Seq<u8>)>,
)
    requires
        100 <= status_code < 1000,
        forall|i: int| 0 <= i < reason.len() ==> #[trigger] reason[i] != cr(),
        crate::headers::normalize_fold(pairs0, false) is Ok,
        forall|k: int|
            0 <= k < crate::headers::normalize_fold(pairs0, false)->Ok_0.out.len()
                ==> trim_seq((#[trigger] crate::headers::normalize_fold(pairs0, false)->Ok_0.out[k]).2)
                == crate::headers::normalize_fold(pairs0, false)->Ok_0.out[k].2,
    ensures
        ({
            let acc = crate::headers::normalize_fold(pairs0, false)->Ok_0;
            let items = acc.out;
            let fronted = sel_host(items, true) + sel_host(items, false);
            let bytes = render_response(status_code, reason, items);
            let b = first_blank(bytes, 0);
            &&& b == bytes.len() - 4
            &&& parse_response_head_spec(split_crlf(bytes.take(b as int))) == Some(
                (
                    status_code as nat,
                    reason,
                    crate::events::http11_label(),
                    raw_value_pairs(fronted),
                ),
            )
            &&& crate::headers::normalize_fold(raw_value_pairs(fronted), false)
                == Ok::<crate::headers::NormState, Seq<char>>(
                crate::headers::NormState {
                    out: fronted,
                    seen_content_length: acc.seen_content_length,
                    saw_transfer_encoding: acc.saw_transfer_encoding,
                },
            )
        }),
{
    let acc = crate::headers::normalize_fold(pairs0, false)->Ok_0;
    crate::headers::lemma_fold_grammar(pairs0);
    lemma_fronted_renormalizes(pairs0);
    lemma_response_head_round_trip(status_code, reason, acc.out);
}

} // verus!
