//! The row structure of a dump: how many rows, which bytes each holds, and the
//! label each starts with.
use vstd::prelude::*;
use vstd::arithmetic::div_mod::{lemma_fundamental_div_mod, lemma_fundamental_div_mod_converse};

use crate::mode::{Mode, columns_of, radix_of, width_of};
use crate::render::{field, row_label, gap, padded_digits, lemma_padded_digits, NEWLINE, LABEL_RADIX, LABEL_WIDTH};
use crate::dumper::{rendered_from, dump_of, piece, lemma_rendered_split};

verus! {

/// The number of rows for `len` bytes: `len` divided by the row length, rounded up.
pub open spec fn row_count(m: Mode, len: nat) -> nat {
    ((len + columns_of(m) - 1) / (columns_of(m) as int)) as nat
}

/// The bytes of row `r`: the run of bytes from offset `r` times the row length,
/// a full row's worth or up to the end of the data.
pub open spec fn row_bytes(m: Mode, data: Seq<u8>, r: nat) -> Seq<u8> {
    let start = r * columns_of(m);
    let end = if start + columns_of(m) < data.len() {
        (start + columns_of(m)) as int
    } else {
        data.len() as int
    };
    data.subrange(start as int, end)
}

/// The fields of `bytes`, one after the other.
pub open spec fn fields_of(m: Mode, bytes: Seq<u8>) -> Seq<u8>
    decreases bytes.len(),
{
    if bytes.len() == 0 {
        Seq::empty()
    } else {
        fields_of(m, bytes.drop_last()) + field(m, bytes.last())
    }
}

/// Row `r` as text: the label of the offset of its first byte, then its fields.
pub open spec fn row_text(m: Mode, data: Seq<u8>, r: nat) -> Seq<u8> {
    row_label(r * columns_of(m)) + fields_of(m, row_bytes(m, data, r))
}

/// The first `n` rows as text.
pub open spec fn rows_text(m: Mode, data: Seq<u8>, n: nat) -> Seq<u8>
    decreases n,
{
    if n == 0 {
        Seq::empty()
    } else {
        rows_text(m, data, (n - 1) as nat) + row_text(m, data, (n - 1) as nat)
    }
}

/// The number of line feeds in `s`.
pub open spec fn line_count(s: Seq<u8>) -> nat
    decreases s.len(),
{
    if s.len() == 0 {
        0
    } else {
        line_count(s.drop_last()) + if s.last() == NEWLINE {
            1nat
        } else {
            0nat
        }
    }
}

proof fn lemma_count_bounds(c: nat, len: nat, n: nat)
    requires
        c > 0,
    ensures
        n + 1 <= (len + c - 1) / (c as int) ==> n * c < len,
        len <= ((len + c - 1) / (c as int)) * c,
{
    let q = (len + c - 1) / (c as int);
    let r = (len + c - 1) % (c as int);
    lemma_fundamental_div_mod(len + c - 1, c as int);
    assert(len <= q * c) by (nonlinear_arith)
        requires
            len + c - 1 == c * q + r,
            r < c,
    ;
    if n + 1 <= q {
        assert(n * c < len) by (nonlinear_arith)
            requires
                len + c - 1 == c * q + r,
                0 <= r,
                n + 1 <= q,
                c > 0,
        ;
    }
}

/// Rendering a run of at most one row's worth of bytes that starts at a row
/// boundary gives a label, then the fields.
proof fn lemma_row_rendered(m: Mode, start: nat, bytes: Seq<u8>)
    requires
        start % columns_of(m) == 0,
        1 <= bytes.len() <= columns_of(m),
    ensures
        rendered_from(m, start, bytes) == row_label(start) + fields_of(m, bytes),
    decreases bytes.len(),
{
    let c = columns_of(m);
    let last = (start + bytes.len() - 1) as nat;
    if bytes.len() == 1 {
        assert(bytes.drop_last() =~= Seq::<u8>::empty());
        assert(rendered_from(m, start, bytes.drop_last()) == Seq::<u8>::empty());
        assert(fields_of(m, bytes.drop_last()) == Seq::<u8>::empty());
        assert(piece(m, start, bytes.last()) == row_label(start) + field(m, bytes.last()));
        assert(rendered_from(m, start, bytes) =~= row_label(start) + fields_of(m, bytes));
    } else {
        lemma_row_rendered(m, start, bytes.drop_last());
        lemma_fundamental_div_mod(start as int, c as int);
        lemma_fundamental_div_mod_converse(
            last as int,
            c as int,
            start as int / c as int,
            bytes.len() - 1,
        );
        assert(piece(m, last, bytes.last()) == field(m, bytes.last()));
        assert(rendered_from(m, start, bytes) =~= row_label(start) + fields_of(m, bytes));
    }
}

proof fn lemma_rows_prefix(m: Mode, data: Seq<u8>, n: nat)
    requires
        n <= row_count(m, data.len()),
    ensures
        rendered_from(m, 0, data.take(if n * columns_of(m) < data.len() {
            (n * columns_of(m)) as int
        } else {
            data.len() as int
        })) == rows_text(m, data, n),
    decreases n,
{
    let c = columns_of(m);
    if n == 0 {
        assert(data.take(0) =~= Seq::<u8>::empty());
    } else {
        let p = (n - 1) as nat;
        lemma_rows_prefix(m, data, p);
        lemma_count_bounds(c, data.len(), p);
        let start = p * c;
        assert(n * c == start + c) by (nonlinear_arith)
            requires
                n == p + 1,
                start == p * c,
        ;
        let bytes = row_bytes(m, data, p);
        let end = if n * c < data.len() {
            (n * c) as int
        } else {
            data.len() as int
        };
        assert(data.take(start as int) + bytes =~= data.take(end));
        lemma_rendered_split(m, 0, data.take(start as int), bytes);
        lemma_fundamental_div_mod_converse(start as int, c as int, p as int, 0);
        lemma_row_rendered(m, start, bytes);
    }
}

/// A dump is its rows, then one line feed. There are as many rows as the data
/// length divided by the row length, rounded up (none for no data); every row
/// but the last holds a full row's worth of bytes and the last holds at least
/// one. Row `r` holds the bytes from offset `r` times the row length and is
/// labelled with that offset, so consecutive labels differ by the row length.
pub proof fn lemma_rows(m: Mode, data: Seq<u8>)
    ensures
        dump_of(m, data) == rows_text(m, data, row_count(m, data.len())) + seq![NEWLINE],
        data.len() == 0 <==> row_count(m, data.len()) == 0,
        forall|r: nat|
            r + 1 < row_count(m, data.len()) ==> #[trigger] row_bytes(m, data, r).len()
                == columns_of(m),
        row_count(m, data.len()) > 0 ==> 1 <= row_bytes(
            m,
            data,
            (row_count(m, data.len()) - 1) as nat,
        ).len() <= columns_of(m),
        forall|r: nat|
            r < row_count(m, data.len()) ==> #[trigger] row_bytes(m, data, r) == data.subrange(
                (r * columns_of(m)) as int,
                (r * columns_of(m) + row_bytes(m, data, r).len()) as int,
            ),
{
    let c = columns_of(m);
    let n = row_count(m, data.len());
    lemma_count_bounds(c, data.len(), 0);
    lemma_rows_prefix(m, data, n);
    assert(n * c >= data.len());
    assert(data.take(data.len() as int) =~= data);
    if data.len() == 0 {
        assert(n == 0);
    }
    assert forall|r: nat| r + 1 < n implies #[trigger] row_bytes(m, data, r).len() == c by {
        lemma_count_bounds(c, data.len(), r + 1);
        assert((r + 1) * c == r * c + c) by (nonlinear_arith);
    }
    if n > 0 {
        lemma_count_bounds(c, data.len(), (n - 1) as nat);
    }
    assert forall|r: nat| r < n implies #[trigger] row_bytes(m, data, r) == data.subrange(
        (r * c) as int,
        (r * c + row_bytes(m, data, r).len()) as int,
    ) by {
        lemma_count_bounds(c, data.len(), r);
        assert(row_bytes(m, data, r) =~= data.subrange(
            (r * c) as int,
            (r * c + row_bytes(m, data, r).len()) as int,
        ));
    }
}

proof fn lemma_line_count_add(a: Seq<u8>, b: Seq<u8>)
    ensures
        line_count(a + b) == line_count(a) + line_count(b),
    decreases b.len(),
{
    if b.len() == 0 {
        assert(a + b =~= a);
    } else {
        assert((a + b).drop_last() =~= a + b.drop_last());
        lemma_line_count_add(a, b.drop_last());
    }
}

proof fn lemma_no_line_feed(s: Seq<u8>)
    requires
        forall|i: int| 0 <= i < s.len() ==> #[trigger] s[i] != NEWLINE,
    ensures
        line_count(s) == 0,
    decreases s.len(),
{
    if s.len() > 0 {
        lemma_no_line_feed(s.drop_last());
    }
}

proof fn lemma_digits_no_line_feed(n: nat, base: nat, width: nat)
    requires
        2 <= base <= 16,
    ensures
        line_count(padded_digits(n, base, width)) == 0,
{
    lemma_padded_digits(n, base, width);
    lemma_no_line_feed(padded_digits(n, base, width));
}

proof fn lemma_fields_no_line_feed(m: Mode, bytes: Seq<u8>)
    ensures
        line_count(fields_of(m, bytes)) == 0,
    decreases bytes.len(),
{
    if bytes.len() > 0 {
        lemma_fields_no_line_feed(m, bytes.drop_last());
        lemma_digits_no_line_feed(bytes.last() as nat, radix_of(m), width_of(m));
        lemma_no_line_feed(gap());
        lemma_line_count_add(padded_digits(bytes.last() as nat, radix_of(m), width_of(m)), gap());
        lemma_line_count_add(fields_of(m, bytes.drop_last()), field(m, bytes.last()));
    }
}

proof fn lemma_rows_line_count(m: Mode, data: Seq<u8>, n: nat)
    ensures
        line_count(rows_text(m, data, n)) == n,
    decreases n,
{
    if n > 0 {
        let p = (n - 1) as nat;
        let offset = p * columns_of(m);
        let digits = padded_digits(offset, LABEL_RADIX as nat, LABEL_WIDTH as nat);
        lemma_rows_line_count(m, data, p);
        assert(seq![NEWLINE].drop_last() =~= Seq::<u8>::empty());
        assert(line_count(Seq::<u8>::empty()) == 0);
        assert(line_count(seq![NEWLINE]) == 1);
        lemma_digits_no_line_feed(offset, LABEL_RADIX as nat, LABEL_WIDTH as nat);
        lemma_no_line_feed(gap());
        lemma_line_count_add(seq![NEWLINE], digits);
        lemma_line_count_add(seq![NEWLINE] + digits, gap());
        lemma_fields_no_line_feed(m, row_bytes(m, data, p));
        lemma_line_count_add(row_label(offset), fields_of(m, row_bytes(m, data, p)));
        lemma_line_count_add(rows_text(m, data, p), row_text(m, data, p));
    }
}

/// A dump holds one line feed per row and one more at the end; for no data,
/// that is a single line feed.
pub proof fn lemma_dump_line_count(m: Mode, data: Seq<u8>)
    ensures
        line_count(dump_of(m, data)) == row_count(m, data.len()) + 1,
        data.len() == 0 ==> dump_of(m, data) == seq![NEWLINE],
{
    lemma_rows(m, data);
    let n = row_count(m, data.len());
    lemma_rows_line_count(m, data, n);
    assert(seq![NEWLINE].drop_last() =~= Seq::<u8>::empty());
    assert(line_count(Seq::<u8>::empty()) == 0);
    assert(line_count(seq![NEWLINE]) == 1);
    lemma_line_count_add(rows_text(m, data, n), seq![NEWLINE]);
    if data.len() == 0 {
        assert(dump_of(m, data) =~= seq![NEWLINE]);
    }
}

} // verus!
