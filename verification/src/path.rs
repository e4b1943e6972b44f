use vstd::prelude::*;
use vstd::slice::slice_subrange;

verus! {

/// A path and a position in it, from which its segments are taken one by
/// one. Segments are separated by `/` or `\`; empty ones are passed over.
#[derive(Clone, Copy, Debug)]
pub struct Path<'a> {
    pub path: &'a [u8],
    pub pos: usize,
}

/// `byte` is `/` or `\`.
pub open spec fn is_separator(byte: u8) -> bool {
    byte == 0x2f || byte == 0x5c
}

/// The index of the first byte of `s` at or after `from` that is no
/// separator, or the length of `s` where there is none.
pub open spec fn skip_separators(s: Seq<u8>, from: int) -> int
    decreases s.len() - from,
{
    if from < 0 || from >= s.len() || !is_separator(s[from]) {
        from
    } else {
        skip_separators(s, from + 1)
    }
}

/// The index of the first separator of `s` at or after `from`, or the
/// length of `s` where there is none.
pub open spec fn segment_end(s: Seq<u8>, from: int) -> int
    decreases s.len() - from,
{
    if from < 0 || from >= s.len() || is_separator(s[from]) {
        from
    } else {
        segment_end(s, from + 1)
    }
}

/// `skip_separators` stops within `s`, at a byte that is no separator.
pub proof fn lemma_skip_separators(s: Seq<u8>, from: int)
    requires
        0 <= from <= s.len(),
    ensures
        from <= skip_separators(s, from) <= s.len(),
        skip_separators(s, from) < s.len() ==> !is_separator(s[skip_separators(s, from)]),
    decreases s.len() - from,
{
    if from >= s.len() || !is_separator(s[from]) {
    } else {
        lemma_skip_separators(s, from + 1);
    }
}

/// `segment_end` stops within `s`, behind bytes that are no separators.
pub proof fn lemma_segment_end(s: Seq<u8>, from: int)
    requires
        0 <= from <= s.len(),
    ensures
        from <= segment_end(s, from) <= s.len(),
        from < s.len() && !is_separator(s[from]) ==> from < segment_end(s, from),
        forall|i: int| from <= i < segment_end(s, from) ==> !is_separator(s[i]),
    decreases s.len() - from,
{
    if from >= s.len() || is_separator(s[from]) {
    } else {
        lemma_segment_end(s, from + 1);
    }
}

/// Where the next segment of `s` at or after `from` starts and ends, if
/// there is one.
pub open spec fn next_segment(s: Seq<u8>, from: int) -> Option<(int, int)> {
    let start = skip_separators(s, from);
    if start >= s.len() {
        None
    } else {
        Some((start, segment_end(s, start)))
    }
}

/// Finds the next segment of `path` at or after `from`.
pub fn find_segment(path: &[u8], from: usize) -> (r: Option<(usize, usize)>)
    requires
        from <= path@.len(),
    ensures
        match r {
            Some((start, stop)) => next_segment(path@, from as int) == Some(
                (start as int, stop as int),
            ) && from <= start < stop <= path@.len(),
            None => next_segment(path@, from as int) is None,
        },
{
    let mut start = from;
    while start < path.len() && (path[start] == 0x2f || path[start] == 0x5c)
        invariant
            from <= start <= path@.len(),
            skip_separators(path@, from as int) == skip_separators(path@, start as int),
        decreases path@.len() - start,
    {
        start += 1;
    }
    if start >= path.len() {
        return None;
    }
    let mut stop = start;
    while stop < path.len() && !(path[stop] == 0x2f || path[stop] == 0x5c)
        invariant
            start <= stop <= path@.len(),
            start < path@.len(),
            !is_separator(path@[start as int]),
            segment_end(path@, start as int) == segment_end(path@, stop as int),
        decreases path@.len() - stop,
    {
        stop += 1;
    }
    Some((start, stop))
}

impl<'a> Path<'a> {
    /// The position lies within the path.
    pub open spec fn wf(&self) -> bool {
        self.pos <= self.path@.len()
    }

    /// The path `path`, with no segment taken yet.
    pub fn new(path: &'a [u8]) -> (p: Path<'a>)
        ensures
            p.wf(),
            p.path@ == path@,
            p.pos == 0,
    {
        Path { path, pos: 0 }
    }

    /// Tells whether at most one byte of the path is left.
    pub fn is_end(&self) -> (r: bool)
        requires
            self.wf(),
        ensures
            r == (self.path@.len() - self.pos <= 1),
    {
        self.path.len() - self.pos <= 1
    }

    /// Takes the next segment that is not empty, and moves behind the
    /// separator that ends it.
    pub fn next(&mut self) -> (r: Option<&'a [u8]>)
        requires
            old(self).wf(),
        ensures
            final(self).wf(),
            final(self).path@ == old(self).path@,
            match r {
                Some(segment) => {
                    &&& next_segment(old(self).path@, old(self).pos as int) matches Some(
                        (start, stop),
                    )
                    &&& segment@ == old(self).path@.subrange(start, stop)
                    &&& segment@.len() > 0
                    &&& final(self).pos == if stop < old(self).path@.len() {
                        stop + 1
                    } else {
                        stop
                    }
                },
                None => {
                    &&& next_segment(old(self).path@, old(self).pos as int) is None
                    &&& final(self).pos == old(self).path@.len()
                },
            },
    {
        match find_segment(self.path, self.pos) {
            Some((start, stop)) => {
                self.pos = if stop < self.path.len() {
                    stop + 1
                } else {
                    stop
                };
                Some(slice_subrange(self.path, start, stop))
            },
            None => {
                self.pos = self.path.len();
                None
            },
        }
    }
}

} // verus!
