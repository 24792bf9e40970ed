//! An incremental byte accumulator with cursor-based line and
//! blank-line search.
//!
//! The buffer remembers how far previous searches got, so repeated
//! calls against a growing buffer stay amortized linear. The cursors
//! never point past a position that could still start a match, and
//! every extraction resets them, since consuming bytes invalidates
//! previously found offsets.

use vstd::prelude::*;

verus! {

/// A carriage return byte.
pub open spec fn cr() -> u8 {
    0x0d
}

/// A line feed byte.
pub open spec fn lf() -> u8 {
    0x0a
}

/// Whether a CRLF pair starts at position `i` of `s`.
pub open spec fn is_crlf_at(s: Seq<u8>, i: int) -> bool {
    0 <= i && i + 2 <= s.len() && s[i] == cr() && s[i + 1] == lf()
}

/// Whether a blank line (CRLF CRLF) starts at position `i` of `s`.
pub open spec fn is_blank_at(s: Seq<u8>, i: int) -> bool {
    0 <= i && i + 4 <= s.len() && s[i] == cr() && s[i + 1] == lf() && s[i + 2] == cr() && s[i + 3]
        == lf()
}

/// Index of the first CRLF pair in `s`, or `s.len()` when there is
/// none.
pub open spec fn first_crlf(s: Seq<u8>, from: nat) -> nat
    decreases s.len() - from,
{
    if from + 2 > s.len() {
        s.len()
    } else if is_crlf_at(s, from as int) {
        from
    } else {
        first_crlf(s, from + 1)
    }
}

/// Index of the first blank line in `s`, or `s.len()` when there is
/// none.
pub open spec fn first_blank(s: Seq<u8>, from: nat) -> nat
    decreases s.len() - from,
{
    if from + 4 > s.len() {
        s.len()
    } else if is_blank_at(s, from as int) {
        from
    } else {
        first_blank(s, from + 1)
    }
}

/// `first_crlf` from zero finds exactly the first CRLF.
pub proof fn lemma_first_crlf_at(s: Seq<u8>, k: int)
    requires
        0 <= k <= s.len(),
        forall|j: int| 0 <= j < k ==> !is_crlf_at(s, j),
        k < s.len() ==> is_crlf_at(s, k),
    ensures
        first_crlf(s, 0) == if k < s.len() {
            k as nat
        } else {
            s.len()
        },
{
    lemma_first_crlf_from(s, 0, k);
}

proof fn lemma_first_crlf_from(s: Seq<u8>, from: nat, k: int)
    requires
        0 <= k <= s.len(),
        forall|j: int| from <= j < k ==> !is_crlf_at(s, j),
        k < s.len() ==> is_crlf_at(s, k),
        from <= s.len(),
    ensures
        from <= k ==> first_crlf(s, from) == if k < s.len() {
            k as nat
        } else {
            s.len()
        },
    decreases s.len() - from,
{
    if from > k {
    } else if from + 2 > s.len() {
    } else if is_crlf_at(s, from as int) {
    } else {
        lemma_first_crlf_from(s, from + 1, k);
    }
}

/// `first_blank` from zero finds exactly the first blank line.
pub proof fn lemma_first_blank_at(s: Seq<u8>, k: int)
    requires
        0 <= k <= s.len(),
        forall|j: int| 0 <= j < k ==> !is_blank_at(s, j),
        k < s.len() ==> is_blank_at(s, k),
    ensures
        first_blank(s, 0) == if k < s.len() {
            k as nat
        } else {
            s.len()
        },
{
    lemma_first_blank_from(s, 0, k);
}

proof fn lemma_first_blank_from(s: Seq<u8>, from: nat, k: int)
    requires
        0 <= k <= s.len(),
        forall|j: int| from <= j < k ==> !is_blank_at(s, j),
        k < s.len() ==> is_blank_at(s, k),
        from <= s.len(),
    ensures
        from <= k ==> first_blank(s, from) == if k < s.len() {
            k as nat
        } else {
            s.len()
        },
    decreases s.len() - from,
{
    if from + 4 > s.len() {
    } else if is_blank_at(s, from as int) {
    } else {
        lemma_first_blank_from(s, from + 1, k);
    }
}

/// `s` split on CRLF separators; a sequence without CRLF is the one
/// piece `s` itself.
pub open spec fn split_crlf(s: Seq<u8>) -> Seq<Seq<u8>>
    decreases s.len(),
    via split_crlf_decreases
{
    let i = first_crlf(s, 0);
    if i == s.len() {
        seq![s]
    } else {
        seq![s.take(i as int)] + split_crlf(s.skip(i as int + 2))
    }
}

#[via_fn]
proof fn split_crlf_decreases(s: Seq<u8>) {
    lemma_first_crlf_bounds(s);
}

proof fn lemma_first_crlf_bounds(s: Seq<u8>)
    ensures
        first_crlf(s, 0) <= s.len(),
        first_crlf(s, 0) < s.len() ==> is_crlf_at(s, first_crlf(s, 0) as int),
{
    lemma_first_crlf_bounds_from(s, 0);
}

proof fn lemma_first_crlf_bounds_from(s: Seq<u8>, from: nat)
    requires
        from <= s.len(),
    ensures
        first_crlf(s, from) <= s.len(),
        first_crlf(s, from) < s.len() ==> is_crlf_at(s, first_crlf(s, from) as int),
    decreases s.len() - from,
{
    if from + 2 > s.len() {
    } else if is_crlf_at(s, from as int) {
    } else {
        lemma_first_crlf_bounds_from(s, from + 1);
    }
}

/// A buffer for received bytes, with efficient extraction of counted
/// runs, single lines, and header blocks ended by a blank line.
pub struct ReceiveBuffer {
    data: Vec<u8>,
    next_line_search: usize,
    multiple_lines_search: usize,
}

impl View for ReceiveBuffer {
    type V = Seq<u8>;

    closed spec fn view(&self) -> Seq<u8> {
        self.data@
    }
}

impl ReceiveBuffer {
    /// The search cursors stay inside the buffer, short of any
    /// position where a match could still appear, and below them no
    /// match starts.
    pub closed spec fn wf(&self) -> bool {
        &&& self.next_line_search == 0 || self.next_line_search < self.data@.len()
        &&& self.multiple_lines_search == 0 || self.multiple_lines_search + 3 <= self.data@.len()
        &&& forall|i: int| 0 <= i < self.next_line_search ==> !is_crlf_at(self.data@, i)
        &&& forall|i: int| 0 <= i < self.multiple_lines_search ==> !is_blank_at(self.data@, i)
    }

    /// A new, empty buffer.
    pub fn new() -> (r: ReceiveBuffer)
        ensures
            r@ =~= Seq::<u8>::empty(),
            r.wf(),
    {
        ReceiveBuffer { data: Vec::new(), next_line_search: 0, multiple_lines_search: 0 }
    }

    /// Appends bytes at the back; the buffer only grows.
    pub fn append(&mut self, bytes: &[u8])
        requires
            old(self).wf(),
        ensures
            final(self)@ =~= old(self)@ + bytes@,
            final(self).wf(),
    {
        let ghost before = self.data@;
        let mut i: usize = 0;
        while i < bytes.len()
            invariant
                old(self).wf(),
                i <= bytes@.len(),
                self.data@ =~= before + bytes@.take(i as int),
                before =~= old(self).data@,
                self.next_line_search == old(self).next_line_search,
                self.multiple_lines_search == old(self).multiple_lines_search,
            decreases bytes@.len() - i,
        {
            self.data.push(bytes[i]);
            i = i + 1;
            proof {
                assert(bytes@.take(i as int).drop_last() =~= bytes@.take(i - 1));
            }
        }
        proof {
            assert(bytes@.take(bytes@.len() as int) =~= bytes@);
        }
        proof {
            assert forall|i: int| 0 <= i < self.next_line_search implies !is_crlf_at(
                self.data@,
                i,
            ) by {
                assert(!is_crlf_at(old(self).data@, i));
                assert(self.data@[i] == before[i]);
                assert(self.data@[i + 1] == before[i + 1]);
            }
            assert forall|i: int| 0 <= i < self.multiple_lines_search implies !is_blank_at(
                self.data@,
                i,
            ) by {
                assert(!is_blank_at(old(self).data@, i));
                assert(self.data@[i] == before[i]);
                assert(self.data@[i + 1] == before[i + 1]);
                assert(self.data@[i + 2] == before[i + 2]);
                assert(self.data@[i + 3] == before[i + 3]);
            }
        }
    }

    /// Appends bytes at the back; the same operation under the name
    /// the connection layer uses.
    pub fn add_data(&mut self, data: &[u8])
        requires
            old(self).wf(),
        ensures
            final(self)@ =~= old(self)@ + data@,
            final(self).wf(),
    {
        self.append(data);
    }

    /// Whether the buffer holds no bytes.
    pub fn is_empty(&self) -> (r: bool)
        ensures
            r == (self@.len() == 0),
    {
        self.data.is_empty()
    }

    /// How many bytes the buffer holds.
    pub fn len(&self) -> (r: usize)
        ensures
            r == self@.len(),
    {
        self.data.len()
    }

    /// The buffered bytes, as a slice.
    pub fn as_bytes(&self) -> (r: &[u8])
        ensures
            r@ =~= self@,
    {
        self.data.as_slice()
    }

    /// Removes and returns `count` bytes from the front, resetting
    /// both search cursors.
    fn extract(&mut self, count: usize) -> (r: Vec<u8>)
        requires
            old(self).wf(),
            count <= old(self)@.len(),
        ensures
            r@ =~= old(self)@.take(count as int),
            final(self)@ =~= old(self)@.skip(count as int),
            final(self).wf(),
    {
        let mut out: Vec<u8> = Vec::new();
        let mut i: usize = 0;
        while i < count
            invariant
                i <= count <= self.data@.len(),
                out@ =~= self.data@.take(i as int),
            decreases count - i,
        {
            out.push(self.data[i]);
            i = i + 1;
        }
        let rest = self.data.split_off(count);
        self.data = rest;
        self.next_line_search = 0;
        self.multiple_lines_search = 0;
        out
    }

    /// Removes and returns the first byte, if any; resets the search
    /// cursors when it does.
    pub fn pop(&mut self) -> (r: Option<u8>)
        requires
            old(self).wf(),
        ensures
            old(self)@.len() == 0 ==> r is None && final(self)@ =~= old(self)@,
            old(self)@.len() > 0 ==> r == Some(old(self)@[0]) && final(self)@ =~= old(
                self,
            )@.skip(1),
            final(self).wf(),
    {
        if self.data.len() == 0 {
            return None;
        }
        let out = self.extract(1);
        Some(out[0])
    }

    /// Returns `count` bytes, removing them, when at least `count`
    /// are buffered; `None`, changing nothing, otherwise.
    pub fn maybe_extract_at_most(&mut self, count: usize) -> (r: Option<Vec<u8>>)
        requires
            old(self).wf(),
        ensures
            old(self)@.len() >= count ==> (r matches Some(v) && v@ =~= old(self)@.take(
                count as int,
            ) && final(self)@ =~= old(self)@.skip(count as int)),
            old(self)@.len() < count ==> r is None && *final(self) == *old(self),
            final(self).wf(),
    {
        if self.data.len() < count {
            return None;
        }
        Some(self.extract(count))
    }

    /// Extracts through and including the first CRLF, when one is
    /// buffered; otherwise remembers how far the search got and
    /// returns `None` with the contents unchanged.
    pub fn maybe_extract_next_line(&mut self) -> (r: Option<Vec<u8>>)
        requires
            old(self).wf(),
        ensures
            ({
                let i = first_crlf(old(self)@, 0);
                if i < old(self)@.len() {
                    r matches Some(v) && v@ =~= old(self)@.take(i as int + 2) && final(self)@ =~= old(
                        self,
                    )@.skip(i as int + 2)
                } else {
                    r is None && final(self)@ =~= old(self)@
                }
            }),
            final(self).wf(),
    {
        let n = self.data.len();
        let mut i: usize = self.next_line_search;
        while n >= 2 && i <= n - 2 && !(self.data[i] == 0x0d && self.data[i + 1] == 0x0a)
            invariant
                old(self).wf(),
                *self == *old(self),
                n == self.data@.len(),
                self.next_line_search <= i,
                i <= self.data@.len(),
                forall|j: int| 0 <= j < i ==> !is_crlf_at(self.data@, j),
            decreases self.data@.len() - i,
        {
            i = i + 1;
        }
        if n >= 2 && i <= n - 2 {
            proof {
                lemma_first_crlf_at(self.data@, i as int);
            }
            let out = self.extract(i + 2);
            Some(out)
        } else {
            proof {
                assert forall|j: int| 0 <= j < self.data@.len() implies !is_crlf_at(
                    self.data@,
                    j,
                ) by {
                    if j >= i {
                        assert(j + 2 > self.data@.len());
                    }
                }
                lemma_first_crlf_at(self.data@, self.data@.len() as int);
            }
            if self.data.len() > 0 {
                self.next_line_search = self.data.len() - 1;
            } else {
                self.next_line_search = 0;
            }
            None
        }
    }

    /// Recognizes an immediate blank line as an explicit empty header
    /// block; otherwise extracts everything up to and including the
    /// first blank-line separator, split into individual lines. With
    /// no separator buffered, remembers how far the search got and
    /// returns `None` with the contents unchanged.
    pub fn maybe_extract_lines(&mut self) -> (r: Option<Vec<Vec<u8>>>)
        requires
            old(self).wf(),
        ensures
            ({
                let s = old(self)@;
                if s.len() > 0 && s[0] == lf() {
                    r matches Some(v) && v@.len() == 0 && final(self)@ =~= s.skip(1)
                } else if s.len() > 1 && s[0] == cr() && s[1] == lf() {
                    r matches Some(v) && v@.len() == 0 && final(self)@ =~= s.skip(2)
                } else {
                    let b = first_blank(s, 0);
                    if b < s.len() {
                        r matches Some(v) && v.deep_view() =~= split_crlf(s.take(b as int))
                            && final(self)@ =~= s.skip(b as int + 4)
                    } else {
                        r is None && final(self)@ =~= s
                    }
                }
            }),
            final(self).wf(),
    {
        if self.data.len() > 0 && self.data[0] == 0x0a {
            self.extract(1);
            return Some(Vec::new());
        }
        if self.data.len() > 1 && self.data[0] == 0x0d && self.data[1] == 0x0a {
            self.extract(2);
            return Some(Vec::new());
        }
        let n = self.data.len();
        let mut i: usize = self.multiple_lines_search;
        while n >= 4 && i <= n - 4 && !(self.data[i] == 0x0d && self.data[i + 1] == 0x0a
            && self.data[i + 2] == 0x0d && self.data[i + 3] == 0x0a)
            invariant
                old(self).wf(),
                *self == *old(self),
                n == self.data@.len(),
                self.multiple_lines_search <= i,
                i <= self.data@.len(),
                forall|j: int| 0 <= j < i ==> !is_blank_at(self.data@, j),
            decreases self.data@.len() - i,
        {
            i = i + 1;
        }
        if n >= 4 && i <= n - 4 {
            proof {
                lemma_first_blank_at(self.data@, i as int);
            }
            let whole = self.extract(i + 4);
            let ghost head = old(self)@.take(i as int);
            let mut lines: Vec<Vec<u8>> = Vec::new();
            let mut start: usize = 0;
            proof {
                assert(head.skip(0) =~= head);
                assert(lines.deep_view() =~= Seq::<Seq<u8>>::empty());
            }
            loop
                invariant
                    start <= i,
                    i + 4 <= old(self)@.len(),
                    whole@ =~= old(self)@.take(i + 4),
                    head =~= old(self)@.take(i as int),
                    split_crlf(head) =~= lines.deep_view() + split_crlf(
                        head.skip(start as int),
                    ),
                    self.wf(),
                    self@ =~= old(self)@.skip(i + 4),
                    first_blank(old(self)@, 0) == i,
                    !(old(self)@.len() > 0 && old(self)@[0] == lf()),
                    !(old(self)@.len() > 1 && old(self)@[0] == cr() && old(self)@[1] == lf()),
                decreases i - start,
            {
                let ghost sub = head.skip(start as int);
                let mut j: usize = start;
                while j < i && j + 1 < i && !(whole[j] == 0x0d && whole[j + 1] == 0x0a)
                    invariant
                        start <= j,
                        j <= i,
                        i + 4 <= old(self)@.len(),
                        whole@ =~= old(self)@.take(i + 4),
                        forall|k: int| start <= k < j ==> !is_crlf_at(head, k),
                        head =~= old(self)@.take(i as int),
                    decreases i - j,
                {
                    proof {
                        if j + 2 <= i {
                            assert(head[j as int] == whole@[j as int]);
                            assert(head[j + 1] == whole@[j + 1]);
                        }
                    }
                    j = j + 1;
                }
                let line_end = if j < i && j + 1 < i {
                    j
                } else {
                    i
                };
                proof {
                    assert forall|k: int| 0 <= k < line_end - start implies !is_crlf_at(
                        sub,
                        k,
                    ) by {
                        assert(sub[k] == head[start + k]);
                        if k + 1 < sub.len() {
                            assert(sub[k + 1] == head[start + k + 1]);
                        }
                        if j + 2 <= i {
                            assert(!is_crlf_at(head, start + k));
                        } else {
                            if k + 2 <= sub.len() {
                                assert(!is_crlf_at(head, start + k));
                            }
                        }
                    }
                    if j + 2 <= i {
                        assert(head[j as int] == whole@[j as int]);
                        assert(head[j + 1] == whole@[j + 1]);
                        assert(is_crlf_at(head, j as int));
                        assert(sub[j - start] == head[j as int]);
                        assert(sub[j - start + 1] == head[j + 1]);
                        assert(is_crlf_at(sub, j - start));
                        lemma_first_crlf_at(sub, j - start);
                    } else {
                        assert forall|k: int| 0 <= k < sub.len() implies !is_crlf_at(sub, k) by {
                            assert(sub[k] == head[start + k]);
                            if k + 1 < sub.len() {
                                assert(sub[k + 1] == head[start + k + 1]);
                            }
                            if k + 2 <= sub.len() {
                                assert(!is_crlf_at(head, start + k));
                            }
                        }
                        lemma_first_crlf_at(sub, sub.len() as int);
                    }
                }
                let mut line: Vec<u8> = Vec::new();
                let mut k: usize = start;
                while k < line_end
                    invariant
                        start <= k <= line_end,
                        line_end <= i,
                        i + 4 <= old(self)@.len(),
                        whole@ =~= old(self)@.take(i + 4),
                        line@ =~= whole@.subrange(start as int, k as int),
                    decreases line_end - k,
                {
                    line.push(whole[k]);
                    k = k + 1;
                }
                let ghost old_dv = lines.deep_view();
                lines.push(line);
                proof {
                    assert(lines.deep_view() =~= old_dv + seq![
                        whole@.subrange(start as int, line_end as int),
                    ]) by {
                        assert forall|t: int| 0 <= t < lines.deep_view().len() implies lines
                            .deep_view()[t] == (old_dv + seq![
                            whole@.subrange(start as int, line_end as int),
                        ])[t] by {
                            assert(lines.deep_view()[t] == lines@[t].deep_view());
                        }
                    }
                    assert(sub.take(line_end - start) =~= whole@.subrange(
                        start as int,
                        line_end as int,
                    ));
                }
                if line_end == i {
                    proof {
                        assert(first_crlf(sub, 0) == sub.len());
                        assert(split_crlf(sub) =~= seq![sub]);
                        assert(sub =~= whole@.subrange(start as int, line_end as int));
                    }
                    return Some(lines);
                }
                proof {
                    assert(first_crlf(sub, 0) == line_end - start);
                    assert(split_crlf(sub) =~= seq![sub.take(line_end - start)] + split_crlf(
                        sub.skip(line_end - start + 2),
                    ));
                    assert(sub.skip(line_end - start + 2) =~= head.skip(line_end + 2));
                }
                start = line_end + 2;
            }
        } else {
            proof {
                assert forall|j: int| 0 <= j < self.data@.len() implies !is_blank_at(
                    self.data@,
                    j,
                ) by {
                    if j >= i {
                        assert(j + 4 > self.data@.len());
                    }
                }
                lemma_first_blank_at(self.data@, self.data@.len() as int);
            }
            if self.data.len() >= 3 {
                self.multiple_lines_search = self.data.len() - 3;
            } else {
                self.multiple_lines_search = 0;
            }
            None
        }
    }

    /// A fast reject: buffered content whose first byte is an ASCII
    /// control character cannot begin a valid request line.
    pub fn is_next_line_obviously_invalid_request_line(&self) -> (r: bool)
        ensures
            r == (self@.len() > 0 && self@[0] < 0x21),
    {
        if self.data.len() > 0 {
            self.data[0] < 0x21
        } else {
            false
        }
    }
}

} // verus!
