use dump::dumper::{dump_bytes, dump_chunked, Dumper, CHUNK_CAPACITY};
use dump::mode::Mode;

fn text(v: Vec<u8>) -> String {
    String::from_utf8(v).unwrap()
}

#[test]
fn empty_file_hex() {
    assert_eq!(text(dump_bytes(Mode::Hex, &[])), "\n");
}

#[test]
fn empty_file_every_mode() {
    for m in [Mode::Bin, Mode::Oct, Mode::Hex] {
        assert_eq!(text(dump_bytes(m, &[])), "\n");
    }
}

#[test]
fn one_byte_hex() {
    assert_eq!(text(dump_bytes(Mode::Hex, &[0x41])), "\n00000000  41  \n");
}

#[test]
fn four_bytes_bin() {
    assert_eq!(
        text(dump_bytes(Mode::Bin, &[0, 1, 2, 3])),
        "\n00000000  00000000  00000001  00000010  00000011  \n"
    );
}

#[test]
fn nine_bytes_oct() {
    let data: Vec<u8> = (0u8..9).collect();
    assert_eq!(
        text(dump_bytes(Mode::Oct, &data)),
        "\n00000000  000  001  002  003  004  005  006  007  \n00000008  010  \n"
    );
}

#[test]
fn hex_is_lowercase_and_padded() {
    assert_eq!(
        text(dump_bytes(Mode::Hex, &[0x00, 0x0f, 0xab, 0xff])),
        "\n00000000  00  0f  ab  ff  \n"
    );
}

#[test]
fn largest_byte_every_mode() {
    assert_eq!(text(dump_bytes(Mode::Bin, &[255])), "\n00000000  11111111  \n");
    assert_eq!(text(dump_bytes(Mode::Oct, &[255])), "\n00000000  377  \n");
    assert_eq!(text(dump_bytes(Mode::Hex, &[255])), "\n00000000  ff  \n");
}

#[test]
fn second_hex_row_is_labelled_sixteen() {
    let data: Vec<u8> = (0u8..17).collect();
    assert_eq!(
        text(dump_bytes(Mode::Hex, &data)),
        "\n00000000  00  01  02  03  04  05  06  07  08  09  0a  0b  0c  0d  0e  0f  \n00000010  10  \n"
    );
}

fn row_labels(out: &str) -> Vec<String> {
    out.split('\n')
        .filter(|l| !l.is_empty())
        .map(|l| l[..8].to_string())
        .collect()
}

#[test]
fn row_count_is_length_over_columns_rounded_up() {
    for (m, cols) in [(Mode::Bin, 4usize), (Mode::Oct, 8), (Mode::Hex, 16)] {
        for len in 0usize..70 {
            let data = vec![7u8; len];
            let out = text(dump_bytes(m, &data));
            let newlines = out.matches('\n').count();
            assert_eq!(newlines, (len + cols - 1) / cols + 1);
            assert!(out.ends_with('\n'));
        }
    }
}

#[test]
fn row_labels_step_by_columns() {
    let data = vec![1u8; 1000];
    for (m, cols) in [(Mode::Bin, 4usize), (Mode::Oct, 8), (Mode::Hex, 16)] {
        let labels = row_labels(&text(dump_bytes(m, &data)));
        for (r, l) in labels.iter().enumerate() {
            assert_eq!(*l, format!("{:08x}", r * cols));
        }
    }
}

#[test]
fn full_rows_hold_columns_fields() {
    let data = vec![9u8; 10];
    let out = text(dump_bytes(Mode::Bin, &data));
    let rows: Vec<&str> = out.split('\n').filter(|l| !l.is_empty()).collect();
    assert_eq!(rows.len(), 3);
    assert_eq!(rows[0].len(), 10 + 4 * 10);
    assert_eq!(rows[1].len(), 10 + 4 * 10);
    assert_eq!(rows[2].len(), 10 + 2 * 10);
}

#[test]
fn fields_are_distinct_and_fixed_width() {
    for (m, width) in [(Mode::Bin, 8usize), (Mode::Oct, 3), (Mode::Hex, 2)] {
        let data: Vec<u8> = (0u8..=255).collect();
        let out = text(dump_bytes(m, &data));
        let mut fields: Vec<String> = Vec::new();
        for row in out.split('\n').filter(|l| !l.is_empty()) {
            for f in row[10..].split("  ").filter(|f| !f.is_empty()) {
                assert_eq!(f.len(), width);
                fields.push(f.to_string());
            }
        }
        assert_eq!(fields.len(), 256);
        let mut sorted = fields.clone();
        sorted.sort();
        sorted.dedup();
        assert_eq!(sorted.len(), 256);
    }
}

#[test]
fn chunk_size_does_not_change_output() {
    let data: Vec<u8> = (0..1000u32).map(|i| (i * 37 % 256) as u8).collect();
    for m in [Mode::Bin, Mode::Oct, Mode::Hex] {
        let whole = dump_bytes(m, &data);
        for cap in [1usize, 3, 7, 16, 255, CHUNK_CAPACITY, 4096] {
            assert_eq!(dump_chunked(m, &data, cap), whole);
        }
    }
}

#[test]
fn dumping_twice_gives_the_same_output() {
    let data: Vec<u8> = (0..300u32).map(|i| (i % 251) as u8).collect();
    assert_eq!(dump_bytes(Mode::Oct, &data), dump_bytes(Mode::Oct, &data));
}

#[test]
fn dumper_feeds_chunks_and_ends_on_empty_read() {
    let mut d = Dumper::new(Mode::Hex);
    let mut out: Vec<u8> = Vec::new();
    assert!(!d.feed(&[0x41, 0x42], &mut out));
    assert_eq!(d.offset(), 2);
    assert!(!d.feed(&[0x43], &mut out));
    assert_eq!(d.offset(), 3);
    assert!(d.feed(&[], &mut out));
    assert_eq!(d.offset(), 3);
    assert_eq!(d.mode(), Mode::Hex);
    assert_eq!(text(out), "\n00000000  41  42  43  \n");
}

#[test]
fn dumper_starts_new_row_across_chunks() {
    let mut d = Dumper::new(Mode::Bin);
    let mut out: Vec<u8> = Vec::new();
    d.feed(&[1, 2, 3], &mut out);
    d.feed(&[4, 5], &mut out);
    d.feed(&[], &mut out);
    assert_eq!(
        text(out),
        "\n00000000  00000001  00000010  00000011  00000100  \n00000004  00000101  \n"
    );
}
