//! The streaming dumper: bytes go in chunk by chunk, formatted rows come out.
use vstd::prelude::*;

use crate::mode::{Mode, columns_of};
use crate::render::{field, row_label, push_field, push_row_label, NEWLINE};

verus! {

/// What the byte at absolute offset `i` contributes: the label of a new row
/// when `i` is a multiple of the row length, then the byte's field.
pub open spec fn piece(m: Mode, i: nat, b: u8) -> Seq<u8> {
    if i % columns_of(m) == 0 {
        row_label(i) + field(m, b)
    } else {
        field(m, b)
    }
}

/// The output for `bytes` when the first of them sits at offset `start`.
pub open spec fn rendered_from(m: Mode, start: nat, bytes: Seq<u8>) -> Seq<u8>
    decreases bytes.len(),
{
    if bytes.len() == 0 {
        Seq::empty()
    } else {
        rendered_from(m, start, bytes.drop_last()) + piece(
            m,
            (start + bytes.len() - 1) as nat,
            bytes.last(),
        )
    }
}

/// The whole output for a file holding `data`: its rows, then one line feed.
pub open spec fn dump_of(m: Mode, data: Seq<u8>) -> Seq<u8> {
    rendered_from(m, 0, data) + seq![NEWLINE]
}

/// Rendering a sequence split in two is rendering each part at its own offset.
pub proof fn lemma_rendered_split(m: Mode, start: nat, a: Seq<u8>, b: Seq<u8>)
    ensures
        rendered_from(m, start, a + b) == rendered_from(m, start, a) + rendered_from(
            m,
            start + a.len(),
            b,
        ),
    decreases b.len(),
{
    if b.len() == 0 {
        assert(a + b =~= a);
        assert(rendered_from(m, start, a) + rendered_from(m, start + a.len(), b) =~= rendered_from(
            m,
            start,
            a,
        ));
    } else {
        assert((a + b).drop_last() =~= a + b.drop_last());
        lemma_rendered_split(m, start, a, b.drop_last());
        assert(rendered_from(m, start, a + b) =~= rendered_from(m, start, a) + rendered_from(
            m,
            start + a.len(),
            b,
        ));
    }
}

/// The output of a dump whose nonempty reads of the file returned `chunks`, in
/// order, the first at offset `start`, followed by the empty read that ends it.
pub open spec fn streamed(m: Mode, start: nat, chunks: Seq<Seq<u8>>) -> Seq<u8>
    decreases chunks.len(),
{
    if chunks.len() == 0 {
        seq![NEWLINE]
    } else {
        rendered_from(m, start, chunks[0]) + streamed(
            m,
            start + chunks[0].len(),
            chunks.drop_first(),
        )
    }
}

proof fn lemma_streamed_from(m: Mode, start: nat, chunks: Seq<Seq<u8>>)
    ensures
        streamed(m, start, chunks) == rendered_from(m, start, chunks.flatten()) + seq![NEWLINE],
    decreases chunks.len(),
{
    if chunks.len() == 0 {
        assert(streamed(m, start, chunks) =~= rendered_from(m, start, chunks.flatten()) + seq![
            NEWLINE,
        ]);
    } else {
        let rest = chunks.drop_first();
        lemma_streamed_from(m, start + chunks[0].len(), rest);
        lemma_rendered_split(m, start, chunks[0], rest.flatten());
        assert(streamed(m, start, chunks) =~= rendered_from(m, start, chunks.flatten()) + seq![
            NEWLINE,
        ]);
    }
}

/// However a file is cut into chunks as it is read, the streamed output is the
/// dump of its whole contents: row alignment follows the running offset only.
pub proof fn lemma_chunking_invisible(m: Mode, chunks: Seq<Seq<u8>>)
    ensures
        streamed(m, 0, chunks) == dump_of(m, chunks.flatten()),
{
    lemma_streamed_from(m, 0, chunks);
}

/// Two dumps of the same contents in the same mode give byte-identical output,
/// even when the reads cut the file at different places.
pub proof fn lemma_dump_repeatable(m: Mode, first: Seq<Seq<u8>>, second: Seq<Seq<u8>>)
    requires
        first.flatten() == second.flatten(),
    ensures
        streamed(m, 0, first) == streamed(m, 0, second),
{
    lemma_chunking_invisible(m, first);
    lemma_chunking_invisible(m, second);
}

/// The state of one dump: the mode and how many bytes have been consumed.
pub struct Dumper {
    mode: Mode,
    offset: u64,
}

impl Dumper {
    /// The mode this dumper renders in.
    pub closed spec fn mode_spec(&self) -> Mode {
        self.mode
    }

    /// The number of bytes consumed so far.
    pub closed spec fn offset_spec(&self) -> nat {
        self.offset as nat
    }

    /// A dumper that has consumed nothing.
    pub fn new(mode: Mode) -> (r: Dumper)
        ensures
            r.mode_spec() == mode,
            r.offset_spec() == 0,
    {
        Dumper { mode, offset: 0 }
    }

    /// The mode this dumper renders in.
    pub fn mode(&self) -> (r: Mode)
        ensures
            r == self.mode_spec(),
    {
        self.mode
    }

    /// The number of bytes consumed so far.
    pub fn offset(&self) -> (r: u64)
        ensures
            r == self.offset_spec(),
    {
        self.offset
    }

    /// Consumes one chunk read from the file. A nonempty chunk appends its rows'
    /// text to `out` and advances the offset; an empty one marks the end of the
    /// file, appends the final line feed and returns `true`.
    pub fn feed(&mut self, chunk: &[u8], out: &mut Vec<u8>) -> (done: bool)
        requires
            old(self).offset_spec() + chunk@.len() <= u64::MAX,
        ensures
            done == (chunk@.len() == 0),
            final(self).mode_spec() == old(self).mode_spec(),
            final(self).offset_spec() == old(self).offset_spec() + chunk@.len(),
            done ==> final(out)@ == old(out)@ + seq![NEWLINE],
            !done ==> final(out)@ == old(out)@ + rendered_from(
                old(self).mode_spec(),
                old(self).offset_spec(),
                chunk@,
            ),
    {
        if chunk.len() == 0 {
            out.push(NEWLINE);
            return true;
        }
        let ghost start = self.offset as nat;
        let ghost before = out@;
        let cols = self.mode.columns();
        let mut i: usize = 0;
        while i < chunk.len()
            invariant
                i <= chunk@.len(),
                self.mode == old(self).mode,
                self.offset == start + i,
                start + chunk@.len() <= u64::MAX,
                cols == columns_of(self.mode),
                out@ == before + rendered_from(self.mode, start, chunk@.take(i as int)),
            decreases chunk@.len() - i,
        {
            if self.offset % cols == 0 {
                push_row_label(out, self.offset);
            }
            push_field(out, self.mode, chunk[i]);
            proof {
                assert(chunk@.take(i + 1).drop_last() =~= chunk@.take(i as int));
            }
            self.offset = self.offset + 1;
            i = i + 1;
        }
        proof {
            assert(chunk@.take(i as int) =~= chunk@);
        }
        false
    }
}

/// How many bytes one read of the file hands over at most.
pub const CHUNK_CAPACITY: usize = 256;

/// Renders `data` by feeding it to a dumper in chunks of at most `capacity`
/// bytes, the way a file is read; the chunk size never shows in the output.
pub fn dump_chunked(mode: Mode, data: &[u8], capacity: usize) -> (r: Vec<u8>)
    requires
        capacity > 0,
        data@.len() <= u64::MAX,
    ensures
        r@ == dump_of(mode, data@),
{
    let mut d = Dumper::new(mode);
    let mut out: Vec<u8> = Vec::new();
    let mut pos: usize = 0;
    loop
        invariant
            pos <= data@.len(),
            data@.len() <= u64::MAX,
            capacity > 0,
            d.mode_spec() == mode,
            d.offset_spec() == pos,
            out@ == rendered_from(mode, 0, data@.take(pos as int)),
        decreases data@.len() - pos,
    {
        let end: usize = if data.len() - pos > capacity {
            pos + capacity
        } else {
            data.len()
        };
        let chunk = &data[pos..end];
        let done = d.feed(chunk, &mut out);
        if done {
            proof {
                assert(data@.take(pos as int) =~= data@);
            }
            return out;
        }
        proof {
            assert(data@.take(pos as int) + chunk@ =~= data@.take(end as int));
            lemma_rendered_split(mode, 0, data@.take(pos as int), chunk@);
        }
        pos = end;
    }
}

/// Renders the whole of `data` as a dump in mode `mode`.
pub fn dump_bytes(mode: Mode, data: &[u8]) -> (r: Vec<u8>)
    requires
        data@.len() <= u64::MAX,
    ensures
        r@ == dump_of(mode, data@),
{
    dump_chunked(mode, data, CHUNK_CAPACITY)
}

} // verus!
