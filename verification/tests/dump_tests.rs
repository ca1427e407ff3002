use bytedump::format::Args;
use bytedump::pipeline::take_line;
use bytedump::radix::Base;

fn cfg(radix: Base, line_width: usize) -> Args {
    Args {
        address: false,
        text: false,
        radix,
        select: (None, None),
        line_width,
        break_on: Vec::new(),
        colored: false,
    }
}

#[test]
fn compile_is_deterministic() {
    let a = Args { address: true, text: true, ..cfg(Base::Hex, 4) };
    let input: Vec<u8> = vec![1, 2, 3, 4, 5];
    let f1 = a.make_format();
    let f2 = a.make_format();
    let mut out1: Vec<u8> = Vec::new();
    let mut out2: Vec<u8> = Vec::new();
    a.render(&f1, &input, &mut out1);
    a.render(&f2, &input, &mut out2);
    assert_eq!(out1, out2);
}

#[test]
fn pad_width_equals_value_width() {
    for base in [Base::Bin, Base::Oct, Base::Dec, Base::Hex] {
        let mut value: Vec<u8> = Vec::new();
        base.write(171, &mut value);
        let mut padding: Vec<u8> = Vec::new();
        base.pad(&mut padding);
        assert_eq!(value.len(), padding.len());
        assert!(padding.iter().all(|&c| c == b' '));
    }
}

#[test]
fn short_line_pads_absent_slots() {
    let a = cfg(Base::Hex, 3);
    let out = a.run(&vec![1]);
    assert_eq!(out, b"01      \n".to_vec());
}

#[test]
fn range_filter_start_inclusive_stop_exclusive() {
    let a = Args { select: (Some(2), Some(5)), ..cfg(Base::Hex, 3) };
    let input: Vec<u8> = (0..10).collect();
    let out = a.run(&input);
    assert_eq!(out, b"02 03 04\n".to_vec());
}

#[test]
fn stop_counts_absolute_positions() {
    // start at or past stop selects nothing, rather than erroring
    let a = Args { select: (Some(5), Some(3)), ..cfg(Base::Hex, 3) };
    let input: Vec<u8> = (0..10).collect();
    let out = a.run(&input);
    assert_eq!(out, Vec::<u8>::new());
}

#[test]
fn line_breaking_on_sentinel() {
    let input: Vec<u8> = vec![1, 2, 0x0A, 3, 4, 5, 6, 7, 8, 9];
    let brk: Vec<u8> = vec![0x0A];
    let first = take_line(&input, 0, 10, 8, &brk);
    assert_eq!(first, vec![(0, 1), (1, 2), (2, 0x0A)]);
    let second = take_line(&input, 3, 10, 8, &brk);
    assert_eq!(second, vec![(3, 3), (4, 4), (5, 5), (6, 6), (7, 7), (8, 8), (9, 9)]);
}

#[test]
fn line_breaking_rendered_output() {
    let a = Args { break_on: vec![0x0A], ..cfg(Base::Dec, 8) };
    let input: Vec<u8> = vec![1, 2, 0x0A, 3, 4, 5, 6, 7, 8, 9];
    let out = a.run(&input);
    assert_eq!(
        out,
        b"  1   2  10                    \n  3   4   5   6   7   8   9    \n".to_vec()
    );
}

#[test]
fn ascii_slot_printable() {
    let a = Args { text: true, ..cfg(Base::Hex, 1) };
    let out = a.run(&vec![65]);
    assert_eq!(out, b"41  A\n".to_vec());
}

#[test]
fn ascii_slot_non_printable_is_space() {
    let a = Args { text: true, ..cfg(Base::Hex, 1) };
    let out = a.run(&vec![7]);
    assert_eq!(out, b"07   \n".to_vec());
}

#[test]
fn ascii_slot_absent_is_space() {
    // absent and non-printable are indistinguishable in the text column
    let a = Args { text: true, ..cfg(Base::Hex, 2) };
    let out = a.run(&vec![65]);
    assert_eq!(out, b"41     A \n".to_vec());
}

#[test]
fn hex_rendering_bounds() {
    let a = cfg(Base::Hex, 1);
    assert_eq!(a.run(&vec![0]), b"00\n".to_vec());
    assert_eq!(a.run(&vec![255]), b"ff\n".to_vec());
}

#[test]
fn dec_rendering_right_aligned() {
    let a = cfg(Base::Dec, 1);
    assert_eq!(a.run(&vec![5]), b"  5\n".to_vec());
    assert_eq!(a.run(&vec![42]), b" 42\n".to_vec());
    assert_eq!(a.run(&vec![255]), b"255\n".to_vec());
}

#[test]
fn oct_rendering_zero_padded() {
    let a = cfg(Base::Oct, 1);
    assert_eq!(a.run(&vec![5]), b"005\n".to_vec());
    assert_eq!(a.run(&vec![255]), b"377\n".to_vec());
}

#[test]
fn bin_rendering_zero_padded() {
    let a = cfg(Base::Bin, 1);
    assert_eq!(a.run(&vec![5]), b"00000101\n".to_vec());
    assert_eq!(a.run(&vec![255]), b"11111111\n".to_vec());
}

#[test]
fn address_column_six_hex_digits() {
    let a = Args { address: true, ..cfg(Base::Hex, 1) };
    let out = a.run(&vec![0, 1]);
    assert_eq!(out, b"000000  00\n000001  01\n".to_vec());
}

#[test]
fn address_counts_absolute_offsets() {
    let a = Args { address: true, select: (Some(16), None), ..cfg(Base::Hex, 1) };
    let input: Vec<u8> = (0..18).collect();
    let out = a.run(&input);
    assert_eq!(out, b"000010  10\n000011  11\n".to_vec());
}

#[test]
fn colored_output_wraps_in_escapes() {
    let a = Args { address: true, text: true, colored: true, ..cfg(Base::Hex, 1) };
    let out = a.run(&vec![65]);
    assert_eq!(out, b"\x1b[1;95m000000\x1b[0m  41  \x1b[94mA\x1b[0m\n".to_vec());
}

#[test]
fn rerun_is_idempotent() {
    let a = Args { address: true, text: true, break_on: vec![0], ..cfg(Base::Bin, 5) };
    let input: Vec<u8> = vec![3, 0, 200, 65, 66, 67, 68, 69, 70, 0, 0, 9];
    let out1 = a.run(&input);
    let out2 = a.run(&input);
    assert_eq!(out1, out2);
}

#[test]
fn empty_input_produces_no_lines() {
    let a = Args { address: true, text: true, ..cfg(Base::Hex, 8) };
    let out = a.run(&Vec::new());
    assert_eq!(out, Vec::<u8>::new());
}

#[test]
fn empty_selection_produces_no_lines() {
    let a = Args { select: (Some(10), None), ..cfg(Base::Hex, 8) };
    let out = a.run(&vec![1, 2, 3]);
    assert_eq!(out, Vec::<u8>::new());
}

#[test]
fn stop_past_end_is_clamped() {
    let a = Args { select: (Some(1), Some(100)), ..cfg(Base::Hex, 2) };
    let out = a.run(&vec![1, 2, 3]);
    assert_eq!(out, b"02 03\n".to_vec());
}
