//! Absolute directory paths held as a sequence of byte segments.

use vstd::prelude::*;

verus! {

/// The byte that separates segments.
pub const SEPARATOR: u8 = 0x2f;

/// The byte of the current-directory marker `.`.
pub const DOT: u8 = 0x2e;

/// A piece between separators that a path keeps: not empty, and not `.`.
pub open spec fn is_name(seg: Seq<u8>) -> bool {
    seg.len() > 0 && seg != seq![DOT]
}

/// A well-formed segment: kept by `is_name`, with no separator inside.
pub open spec fn is_segment(seg: Seq<u8>) -> bool {
    is_name(seg) && forall|i: int| 0 <= i < seg.len() ==> seg[i] != SEPARATOR
}

/// Appends `cur` to `done` when it is a name.
pub open spec fn close_piece(done: Seq<Seq<u8>>, cur: Seq<u8>) -> Seq<Seq<u8>> {
    if is_name(cur) {
        done.push(cur)
    } else {
        done
    }
}

/// Reading `bytes` from the left: the segments completed so far, and the
/// piece after the last separator.
pub open spec fn scan(bytes: Seq<u8>) -> (Seq<Seq<u8>>, Seq<u8>)
    decreases bytes.len(),
{
    if bytes.len() == 0 {
        (Seq::empty(), Seq::empty())
    } else {
        let (done, cur) = scan(bytes.drop_last());
        if bytes.last() == SEPARATOR {
            (close_piece(done, cur), Seq::empty())
        } else {
            (done, cur.push(bytes.last()))
        }
    }
}

/// The segments of a path written as bytes: the pieces between separators,
/// without empty pieces and without `.`.
pub open spec fn segments_of(bytes: Seq<u8>) -> Seq<Seq<u8>> {
    close_piece(scan(bytes).0, scan(bytes).1)
}

/// Whether the bytes start at the root.
pub open spec fn is_absolute(bytes: Seq<u8>) -> bool {
    bytes.len() > 0 && bytes[0] == SEPARATOR
}

/// The segments after pushing `bytes` onto a path: an absolute path
/// replaces it, a relative one is appended to it.
pub open spec fn pushed(segs: Seq<Seq<u8>>, bytes: Seq<u8>) -> Seq<Seq<u8>> {
    if is_absolute(bytes) {
        segments_of(bytes)
    } else {
        segs + segments_of(bytes)
    }
}

/// Each segment preceded by a separator.
pub open spec fn joined(segs: Seq<Seq<u8>>) -> Seq<u8>
    decreases segs.len(),
{
    if segs.len() == 0 {
        Seq::empty()
    } else {
        joined(segs.drop_last()) + seq![SEPARATOR] + segs.last()
    }
}

/// The text of a path: `/` for the root, else each segment after a separator.
pub open spec fn rendered(segs: Seq<Seq<u8>>) -> Seq<u8> {
    if segs.len() == 0 {
        seq![SEPARATOR]
    } else {
        joined(segs)
    }
}

proof fn lemma_scan_segments(bytes: Seq<u8>)
    ensures
        forall|i: int| 0 <= i < scan(bytes).0.len() ==> is_segment(#[trigger] scan(bytes).0[i]),
        forall|j: int| 0 <= j < scan(bytes).1.len() ==> scan(bytes).1[j] != SEPARATOR,
    decreases bytes.len(),
{
    if bytes.len() > 0 {
        let prev = bytes.drop_last();
        lemma_scan_segments(prev);
        let done = scan(prev).0;
        let cur = scan(prev).1;
        if bytes.last() == SEPARATOR {
            assert forall|i: int| 0 <= i < scan(bytes).0.len() implies is_segment(
                #[trigger] scan(bytes).0[i],
            ) by {
                if i < done.len() {
                    assert(scan(bytes).0[i] == done[i]);
                } else {
                    assert(scan(bytes).0[i] == cur);
                }
            }
        } else {
            assert forall|j: int| 0 <= j < scan(bytes).1.len() implies scan(bytes).1[j]
                != SEPARATOR by {
                assert(scan(bytes).1 == cur.push(bytes.last()));
                if j < cur.len() {
                    assert(scan(bytes).1[j] == cur[j]);
                }
            }
        }
    }
}

proof fn lemma_segments_of_wf(bytes: Seq<u8>)
    ensures
        forall|i: int| 0 <= i < segments_of(bytes).len() ==> is_segment(#[trigger] segments_of(bytes)[i]),
{
    lemma_scan_segments(bytes);
}

proof fn lemma_scan_append_plain(a: Seq<u8>, b: Seq<u8>)
    requires
        forall|i: int| 0 <= i < b.len() ==> b[i] != SEPARATOR,
    ensures
        scan(a + b) == (scan(a).0, scan(a).1 + b),
    decreases b.len(),
{
    if b.len() == 0 {
        assert(a + b =~= a);
        assert(scan(a).1 + b =~= scan(a).1);
    } else {
        let shorter = b.drop_last();
        lemma_scan_append_plain(a, shorter);
        assert((a + b).drop_last() =~= a + shorter);
        assert((a + b).last() == b.last());
        assert((scan(a).1 + shorter).push(b.last()) =~= scan(a).1 + b);
    }
}

proof fn lemma_scan_joined(segs: Seq<Seq<u8>>)
    requires
        segs.len() > 0,
        forall|i: int| 0 <= i < segs.len() ==> is_segment(#[trigger] segs[i]),
    ensures
        scan(joined(segs)) == (segs.drop_last(), segs.last()),
    decreases segs.len(),
{
    let front = segs.drop_last();
    let head = joined(front) + seq![SEPARATOR];
    assert(joined(segs) == head + segs.last());
    assert(head.drop_last() =~= joined(front));
    if front.len() == 0 {
        assert(scan(joined(front)) == (Seq::<Seq<u8>>::empty(), Seq::<u8>::empty()));
    } else {
        lemma_scan_joined(front);
        assert(front.drop_last().push(front.last()) =~= front);
    }
    assert(scan(head) == (front, Seq::<u8>::empty()));
    lemma_scan_append_plain(head, segs.last());
    assert(Seq::<u8>::empty() + segs.last() =~= segs.last());
}

/// Reading back the text of a well-formed path gives the same segments.
pub proof fn law_render_then_parse(segs: Seq<Seq<u8>>)
    requires
        forall|i: int| 0 <= i < segs.len() ==> is_segment(#[trigger] segs[i]),
    ensures
        is_absolute(rendered(segs)),
        segments_of(rendered(segs)) == segs,
{
    if segs.len() == 0 {
        let text = seq![SEPARATOR];
        assert(text.drop_last() =~= Seq::<u8>::empty());
        assert(scan(text.drop_last()) == (Seq::<Seq<u8>>::empty(), Seq::<u8>::empty()));
        assert(!is_name(Seq::<u8>::empty()));
        assert(scan(text) == (Seq::<Seq<u8>>::empty(), Seq::<u8>::empty()));
        assert(segments_of(rendered(segs)) =~= segs);
    } else {
        lemma_scan_joined(segs);
        assert(segs.drop_last().push(segs.last()) =~= segs);
        lemma_joined_starts_with_separator(segs);
    }
}

proof fn lemma_joined_starts_with_separator(segs: Seq<Seq<u8>>)
    requires
        segs.len() > 0,
    ensures
        joined(segs).len() > 0 && joined(segs)[0] == SEPARATOR,
    decreases segs.len(),
{
    let front = segs.drop_last();
    if front.len() == 0 {
        assert(joined(front) =~= Seq::<u8>::empty());
        assert((joined(front) + seq![SEPARATOR] + segs.last())[0] == SEPARATOR);
    } else {
        lemma_joined_starts_with_separator(front);
        assert((joined(front) + seq![SEPARATOR] + segs.last())[0] == joined(front)[0]);
    }
}

/// An absolute directory path: the root, followed by its segments.
pub struct DirPath {
    segments: Vec<Vec<u8>>,
}

impl View for DirPath {
    type V = Seq<Seq<u8>>;

    closed spec fn view(&self) -> Seq<Seq<u8>> {
        self.segments.deep_view()
    }
}

fn is_name_exec(cur: &Vec<u8>) -> (r: bool)
    ensures
        r == is_name(cur@),
{
    if cur.len() == 0 {
        false
    } else if cur.len() == 1 && cur[0] == DOT {
        assert(cur@ =~= seq![DOT]);
        false
    } else {
        assert(cur@ != seq![DOT]) by {
            if cur.len() == 1 {
                assert(cur@[0] != seq![DOT][0]);
            }
        }
        true
    }
}

fn split_segments(bytes: &[u8]) -> (r: Vec<Vec<u8>>)
    ensures
        r.deep_view() == segments_of(bytes@),
{
    let mut done: Vec<Vec<u8>> = Vec::new();
    let mut cur: Vec<u8> = Vec::new();
    let mut i: usize = 0;
    assert(bytes@.take(0) =~= Seq::<u8>::empty());
    while i < bytes.len()
        invariant
            0 <= i <= bytes@.len(),
            done.deep_view() == scan(bytes@.take(i as int)).0,
            cur@ == scan(bytes@.take(i as int)).1,
        decreases bytes@.len() - i,
    {
        let b = bytes[i];
        assert(bytes@.take(i + 1).drop_last() =~= bytes@.take(i as int));
        if b == SEPARATOR {
            if is_name_exec(&cur) {
                let ghost before = done.deep_view();
                let ghost piece = cur@;
                assert(cur.deep_view() =~= piece);
                done.push(cur);
                assert(done.deep_view() =~= before.push(piece));
            }
            cur = Vec::new();
        } else {
            cur.push(b);
        }
        i = i + 1;
    }
    assert(bytes@.take(i as int) =~= bytes@);
    if is_name_exec(&cur) {
        let ghost before = done.deep_view();
        let ghost piece = cur@;
        assert(cur.deep_view() =~= piece);
        done.push(cur);
        assert(done.deep_view() =~= before.push(piece));
    }
    done
}

impl DirPath {
    /// Whether a segment can be dropped: anywhere but at the root.
    pub open spec fn can_pop(segs: Seq<Seq<u8>>) -> bool {
        segs.len() > 0
    }

    /// Every segment is well formed.
    pub open spec fn wf(&self) -> bool {
        forall|i: int| 0 <= i < self@.len() ==> is_segment(#[trigger] self@[i])
    }

    /// The root directory `/`.
    pub fn root() -> (r: DirPath)
        ensures
            r@ == Seq::<Seq<u8>>::empty(),
            r.wf(),
    {
        let r = DirPath { segments: Vec::new() };
        assert(r@ =~= Seq::<Seq<u8>>::empty());
        r
    }

    /// Reads an absolute path; `None` when `bytes` does not start at the root.
    pub fn parse(bytes: &[u8]) -> (r: Option<DirPath>)
        ensures
            r is Some <==> is_absolute(bytes@),
            r is Some ==> r->0@ == segments_of(bytes@) && r->0.wf(),
    {
        if bytes.len() == 0 || bytes[0] != SEPARATOR {
            None
        } else {
            let segments = split_segments(bytes);
            proof {
                lemma_segments_of_wf(bytes@);
            }
            Some(DirPath { segments })
        }
    }

    /// The number of segments below the root.
    pub fn len(&self) -> (r: usize)
        ensures
            r == self@.len(),
    {
        self.segments.len()
    }

    /// The last segment, the directory's own name.
    pub fn last(&self) -> (r: &Vec<u8>)
        requires
            self@.len() > 0,
        ensures
            r@ == self@.last(),
    {
        &self.segments[self.segments.len() - 1]
    }

    /// Drops the last segment; `false`, with nothing changed, at the root.
    pub fn pop(&mut self) -> (r: bool)
        ensures
            r == DirPath::can_pop(old(self)@),
            final(self)@ == if r { old(self)@.drop_last() } else { old(self)@ },
            old(self).wf() ==> final(self).wf(),
    {
        let ghost before = self@;
        match self.segments.pop() {
            Some(_) => {
                assert(self@ =~= before.drop_last());
                true
            },
            None => false,
        }
    }

    /// Pushes a path: an absolute one replaces this path, a relative one is
    /// appended segment by segment.
    pub fn push_path(&mut self, bytes: &[u8])
        ensures
            final(self)@ == pushed(old(self)@, bytes@),
            old(self).wf() ==> final(self).wf(),
    {
        let mut more = split_segments(bytes);
        proof {
            lemma_segments_of_wf(bytes@);
        }
        if bytes.len() > 0 && bytes[0] == SEPARATOR {
            self.segments = more;
        } else {
            let ghost before = self@;
            let ghost tail = more.deep_view();
            self.segments.append(&mut more);
            assert(self@ =~= before + tail);
        }
    }

    /// The path as bytes: `/` for the root, else `/` before each segment.
    pub fn to_bytes(&self) -> (r: Vec<u8>)
        ensures
            r@ == rendered(self@),
    {
        let mut out: Vec<u8> = Vec::new();
        if self.segments.len() == 0 {
            out.push(SEPARATOR);
            assert(out@ =~= seq![SEPARATOR]);
            return out;
        }
        let mut i: usize = 0;
        assert(self@.take(0) =~= Seq::<Seq<u8>>::empty());
        while i < self.segments.len()
            invariant
                0 <= i <= self@.len(),
                self@.len() == self.segments@.len(),
                out@ == joined(self@.take(i as int)),
            decreases self@.len() - i,
        {
            let seg = &self.segments[i];
            let ghost start = out@;
            out.push(SEPARATOR);
            let mut j: usize = 0;
            while j < seg.len()
                invariant
                    0 <= j <= seg@.len(),
                    out@ == start + seq![SEPARATOR] + seg@.take(j as int),
                decreases seg@.len() - j,
            {
                out.push(seg[j]);
                assert(seg@.take(j + 1) =~= seg@.take(j as int).push(seg@[j as int]));
                assert(out@ =~= start + seq![SEPARATOR] + seg@.take(j + 1));
                j = j + 1;
            }
            assert(seg@.take(j as int) =~= seg@);
            assert(self@.take(i + 1).drop_last() =~= self@.take(i as int));
            assert(self@[i as int] == seg@);
            i = i + 1;
        }
        assert(self@.take(i as int) =~= self@);
        out
    }
}

} // verus!
