use touchhle::abi::{DotDotDot, VaList};
use touchhle::environment::Environment;
use touchhle::libc::stdio::printf::{
    assemble, count_holes, format_output, parse, printf_inner, scan, snprintf, sprintf, sscanf,
    vsnprintf, vsprintf, Conversion, Directive, FloatFormat, Piece, PrintfError, Width,
};
use touchhle::libc::stdio::text::{
    hex_text, pad_left_text, pointer_text, signed_decimal_text, utf8_text, zero_filled_text,
};
use touchhle::mem::{ConstPtr, MemError, MutPtr, Ptr};

/// An environment whose argument words, from the first variable argument on,
/// are `words`: they all lie in memory.
fn with_args(words: &[u32]) -> (Environment, VaList) {
    let mut env = Environment::new();
    let base = env.mem.allocate(4 * words.len() as u32 + 4).unwrap();
    for (i, &w) in words.iter().enumerate() {
        let p: MutPtr<u32> = Ptr::from_bits(base.to_bits() + 4 * i as u32);
        env.mem.write(p, w).unwrap();
    }
    (env, VaList::from_pointer(base.cast_const()))
}

fn put_str(env: &mut Environment, text: &[u8]) -> ConstPtr<u8> {
    let p: MutPtr<u8> = env.mem.allocate(text.len() as u32 + 1).unwrap().cast();
    env.mem.write_bytes(p, text).unwrap();
    p.cast_const()
}

fn text_of(format: &[u8], words: &[u32]) -> Result<Vec<u8>, PrintfError> {
    let (env, args) = with_args(words);
    let pieces = printf_inner::<false>(&env, format, args)?;
    Ok(assemble(&pieces, &Vec::new()).expect("no piece is left for the host"))
}

fn expect(format: &str, words: &[u32], expected: &str) {
    assert_eq!(
        text_of(format.as_bytes(), words).map(|t| String::from_utf8(t).unwrap()),
        Ok(expected.to_string()),
        "format {:?}",
        format
    );
}

#[test]
fn literal_text_is_copied() {
    expect("", &[], "");
    expect("plain text\n", &[], "plain text\n");
    expect("100%%", &[], "100%");
    expect("%%%%", &[], "%%");
    expect("%5%|", &[], "%|");
}

#[test]
fn format_ends_at_its_first_nul() {
    assert_eq!(text_of(b"ab\0cd%d", &[]), Ok(b"ab".to_vec()));
}

#[test]
fn signed_and_unsigned_decimals() {
    expect("%d", &[0], "0");
    expect("%d", &[42], "42");
    expect("%i", &[(-42i32) as u32], "-42");
    expect("%d", &[i32::MIN as u32], &format!("{}", i32::MIN));
    expect("%d", &[i32::MAX as u32], &format!("{}", i32::MAX));
    expect("%u", &[0xffff_ffff], "4294967295");
    expect("%u and %d", &[0xffff_ffff, 0xffff_ffff], "4294967295 and -1");
    expect("%ld %lu", &[7, 8], "7 8");
}

#[test]
fn integers_are_padded_as_the_host_formats_them() {
    for (v, width) in [(42i32, 5usize), (-42, 5), (0, 1), (123456, 3), (-7, 2), (5, 0)] {
        let plain = format!("{}", v);
        expect(&format!("%{}d", width), &[v as u32], &format!("{:>1$}", plain, width));
        expect(&format!("%0{}d", width), &[v as u32], &format!("{:0>1$}", plain, width));
    }
    expect("%5d", &[42], "   42");
    expect("%05d", &[42], "00042");
    expect("%05d", &[(-42i32) as u32], "00-42");
    expect("%3u", &[7], "  7");
}

#[test]
fn integer_precision_fills_with_zeros_sign_included() {
    for (v, precision) in [(42i32, 5usize), (-42, 5), (-42, 2), (7, 1), (123, 2)] {
        expect(
            &format!("%.{}d", precision),
            &[v as u32],
            &format!("{:01$}", v as i64, precision),
        );
    }
    expect("%.3d", &[(-5i32) as u32], "-05");
    expect("%.0d", &[9], "9");
    expect("%.d", &[9], "9");
    expect("%8.3d", &[42], "     042");
    expect("%08.3d", &[42], "     042");
    expect("%08.0d", &[42], "      42");
}

#[test]
fn width_from_the_arguments() {
    expect("%*d|", &[4, 42], "  42|");
    expect("%0*d|", &[4, 42], "0042|");
    expect("%*d", &[0, 42], "42");
    assert_eq!(text_of(b"%*d", &[(-1i32) as u32, 42]), Err(PrintfError::NegativeWidth));
}

#[test]
fn hexadecimal_ignores_width_and_precision() {
    expect("%x", &[0], "0");
    expect("%x", &[0xdead_beef], "deadbeef");
    expect("%X", &[0xdead_beef], "DEADBEEF");
    expect("%08x", &[0xab], "ab");
    expect("%.4X", &[0xab], "AB");
    expect("%lx", &[255], "ff");
    for v in [1u32, 9, 10, 15, 16, 255, 256, 0x10000, u32::MAX] {
        expect("%x", &[v], &format!("{:x}", v));
        expect("%X", &[v], &format!("{:X}", v));
    }
}

#[test]
fn characters() {
    expect("%c%c", &[b'o' as u32, 0x4b], "oK");
    expect("%c", &[0x1234_5641], "A");
    expect("%C", &[0x41], "A");
    expect("%C", &[0xe9], "\u{e9}");
    expect("%C", &[0x20ac], "\u{20ac}");
    expect("%C", &[0x7ff], "\u{7ff}");
    expect("%C", &[0x800], "\u{800}");
    expect("%C", &[0xffff], "\u{ffff}");
    assert_eq!(text_of(b"%C", &[0xd800]), Err(PrintfError::InvalidCharacter));
    assert_eq!(text_of(b"%C", &[0xdfff]), Err(PrintfError::InvalidCharacter));
}

#[test]
fn strings() {
    let (mut env, args) = with_args(&[0, 0, 0]);
    let hello = put_str(&mut env, b"hello");
    let empty = put_str(&mut env, b"");
    let base: MutPtr<u32> = Ptr::from_bits(args.stack.to_bits());
    env.mem.write(base, hello.to_bits()).unwrap();
    env.mem.write(base.offset(1).unwrap(), empty.to_bits()).unwrap();
    let pieces = printf_inner::<false>(&env, b"<%s|%s|%s>", args).unwrap();
    assert_eq!(assemble(&pieces, &Vec::new()), Some(b"<hello||(null)>".to_vec()));
}

#[test]
fn string_that_cannot_be_read_is_an_error() {
    assert_eq!(text_of(b"%s", &[0x10]), Err(PrintfError::Mem(MemError::OutOfBounds)));
}

#[test]
fn pointers() {
    expect("%p", &[0], "(null)");
    expect("%p", &[0x1000], "0x1000");
    expect("%p", &[0xffff_fff0], "0xfffffff0");
}

#[test]
fn missing_arguments_are_an_error() {
    let (env, _) = with_args(&[1]);
    let beyond = VaList::from_pointer(Ptr::from_bits(0x10));
    assert_eq!(
        printf_inner::<false>(&env, b"%d", beyond).map(|p| p.len()),
        Err(PrintfError::Mem(MemError::OutOfBounds))
    );
    assert_eq!(text_of(b"%d %d %d", &[1]), Err(PrintfError::Mem(MemError::OutOfBounds)));
}

#[test]
fn malformed_formats_are_errors() {
    assert_eq!(text_of(b"%", &[]), Err(PrintfError::MissingSpecifier));
    assert_eq!(text_of(b"abc%05", &[]), Err(PrintfError::MissingSpecifier));
    assert_eq!(text_of(b"%.3l", &[]), Err(PrintfError::MissingSpecifier));
    assert_eq!(text_of(b"%99999999999d", &[1]), Err(PrintfError::Overflow));
    assert_eq!(text_of(b"%.99999999999d", &[1]), Err(PrintfError::Overflow));
    assert_eq!(text_of(b"%2147483648d", &[1]), Err(PrintfError::Overflow));
    assert_eq!(text_of(b"%.3s", &[1]), Err(PrintfError::PrecisionNotAllowed));
    assert_eq!(text_of(b"%.1c", &[1]), Err(PrintfError::PrecisionNotAllowed));
    assert_eq!(text_of(b"%lc", &[1]), Err(PrintfError::LengthModifierNotAllowed));
    assert_eq!(text_of(b"%ls", &[1]), Err(PrintfError::LengthModifierNotAllowed));
    assert_eq!(text_of(b"%lp", &[1]), Err(PrintfError::LengthModifierNotAllowed));
    assert_eq!(text_of(b"%lC", &[1]), Err(PrintfError::LengthModifierNotAllowed));
    assert_eq!(text_of(b"%5c", &[1]), Err(PrintfError::PaddingNotAllowed));
    assert_eq!(text_of(b"%0c", &[1]), Err(PrintfError::PaddingNotAllowed));
    assert_eq!(text_of(b"%3s", &[0]), Err(PrintfError::PaddingNotAllowed));
    assert_eq!(text_of(b"%2C", &[65]), Err(PrintfError::PaddingNotAllowed));
    assert_eq!(text_of(b"%q", &[1]), Err(PrintfError::UnknownSpecifier));
    assert_eq!(text_of(b"%o", &[1]), Err(PrintfError::UnknownSpecifier));
    assert_eq!(text_of(b"%.2o", &[1]), Err(PrintfError::UnknownSpecifier));
    assert_eq!(text_of(b"%@", &[1]), Err(PrintfError::UnknownSpecifier));
    assert_eq!(text_of(b"ok %d then %", &[1]), Err(PrintfError::MissingSpecifier));
}

#[test]
fn floats_are_left_for_the_host_with_their_format() {
    let bits = 1.5f64.to_bits();
    let (env, args) = with_args(&[7, bits as u32, (bits >> 32) as u32, 9]);
    let pieces = printf_inner::<false>(&env, b"a%d b%08.3f c%d", args).unwrap();
    assert_eq!(pieces.len(), 6);
    assert_eq!(count_holes(&pieces), 1);
    match &pieces[3] {
        Piece::Float { bits: got, format } => {
            assert_eq!(f64::from_bits(*got), 1.5);
            assert_eq!(
                *format,
                FloatFormat { specifier: b'f', zero_pad: true, width: 8, precision: Some(3) }
            );
        }
        other => panic!("float expected, found {:?}", other),
    }
    assert_eq!(assemble(&pieces, &Vec::new()), None);
    assert_eq!(assemble(&pieces, &vec![b"1".to_vec(), b"2".to_vec()]), None);
    let host = vec![format!("{:01$.2$}", 1.5f64, 8, 3).into_bytes()];
    assert_eq!(assemble(&pieces, &host), Some(b"a7 b0001.500 c9".to_vec()));
}

#[test]
fn float_specifiers_keep_what_the_format_gave() {
    let bits = (-2.25f64).to_bits();
    let (env, args) = with_args(&[bits as u32, (bits >> 32) as u32, bits as u32, (bits >> 32) as u32]);
    let pieces = printf_inner::<false>(&env, b"%e%12g", args).unwrap();
    assert_eq!(pieces.len(), 2);
    match (&pieces[0], &pieces[1]) {
        (Piece::Float { bits: b0, format: f0 }, Piece::Float { bits: b1, format: f1 }) => {
            assert_eq!((*b0, *b1), (bits, bits));
            assert_eq!(
                *f0,
                FloatFormat { specifier: b'e', zero_pad: false, width: 0, precision: None }
            );
            assert_eq!(
                *f1,
                FloatFormat { specifier: b'g', zero_pad: false, width: 12, precision: None }
            );
        }
        other => panic!("two floats expected, found {:?}", other),
    }
}

#[test]
fn objects_are_left_for_the_host_in_the_log_dialect_only() {
    let (env, args) = with_args(&[0x4000, 5]);
    let pieces = printf_inner::<true>(&env, b"%@=%d", args).unwrap();
    assert_eq!(pieces.len(), 3);
    match &pieces[0] {
        Piece::Object(object) => assert_eq!(object.to_bits(), 0x4000),
        other => panic!("object expected, found {:?}", other),
    }
    assert_eq!(assemble(&pieces, &vec![b"<Thing>".to_vec()]), Some(b"<Thing>=5".to_vec()));
    assert_eq!(
        printf_inner::<true>(&env, b"%l@", args).map(|p| p.len()),
        Err(PrintfError::LengthModifierNotAllowed)
    );
    assert_eq!(
        printf_inner::<false>(&env, b"%@", args).map(|p| p.len()),
        Err(PrintfError::UnknownSpecifier)
    );
}

#[test]
fn format_is_parsed_into_directives() {
    let directives = parse(b"ab%05.2ld%*s%%").unwrap();
    assert_eq!(directives.len(), 4);
    match &directives[0] {
        Directive::Literal(bytes) => assert_eq!(bytes, b"ab"),
        other => panic!("literal expected, found {:?}", other),
    }
    match &directives[1] {
        Directive::Conversion(c) => assert_eq!(
            *c,
            Conversion {
                zero_pad: true,
                width: Width::Fixed(5),
                precision: Some(2),
                long: true,
                specifier: b'd'
            }
        ),
        other => panic!("conversion expected, found {:?}", other),
    }
    match &directives[2] {
        Directive::Conversion(c) => assert_eq!(
            *c,
            Conversion {
                zero_pad: false,
                width: Width::FromArgument,
                precision: None,
                long: false,
                specifier: b's'
            }
        ),
        other => panic!("conversion expected, found {:?}", other),
    }
    match &directives[3] {
        Directive::Conversion(c) => assert_eq!(c.specifier, b'%'),
        other => panic!("conversion expected, found {:?}", other),
    }
    assert_eq!(parse(b"%00012d").map(|d| d.len()), Ok(1));
    assert_eq!(parse(b"x%").map(|d| d.len()), Err(PrintfError::MissingSpecifier));
}

#[test]
fn numbers_are_written_as_the_host_writes_them() {
    for v in [0i64, 1, 9, 10, 99, 100, -1, -10, 4294967295, -2147483648, i64::MAX, i64::MIN] {
        assert_eq!(signed_decimal_text(v), format!("{}", v).into_bytes());
        for width in [0usize, 1, 2, 5, 25] {
            assert_eq!(zero_filled_text(v, width), format!("{:01$}", v, width).into_bytes());
        }
    }
    for (text, width) in [("", 0usize), ("", 3), ("abc", 2), ("abc", 3), ("abc", 6)] {
        assert_eq!(
            pad_left_text(text.as_bytes(), width, b' '),
            format!("{:>1$}", text, width).into_bytes()
        );
        assert_eq!(
            pad_left_text(text.as_bytes(), width, b'0'),
            format!("{:0>1$}", text, width).into_bytes()
        );
    }
    assert_eq!(hex_text(0x1f, false), b"1f");
    assert_eq!(hex_text(0x1f, true), b"1F");
    assert_eq!(pointer_text(0), b"(null)");
    assert_eq!(pointer_text(0x20), b"0x20");
    for unit in [0u16, 0x41, 0x7f, 0x80, 0x7ff, 0x800, 0xd7ff, 0xe000, 0xffff] {
        let c = char::from_u32(unit as u32).unwrap();
        assert_eq!(utf8_text(unit), Some(c.to_string().into_bytes()));
    }
    assert_eq!(utf8_text(0xdabc), None);
}

fn room(env: &mut Environment, size: u32) -> MutPtr<u8> {
    let p: MutPtr<u8> = env.mem.allocate(size).unwrap().cast();
    env.mem.write_bytes(p, &vec![0xaa; size as usize]).unwrap();
    p
}

#[test]
fn sprintf_stores_the_output_and_its_terminator() {
    let (mut env, args) = with_args(&[12, 34]);
    let format = put_str(&mut env, b"%d-%d");
    let dest = room(&mut env, 8);
    let dots = DotDotDot::new(args.reg_offset, args.stack);
    assert_eq!(sprintf(&mut env, dest, format, dots, &Vec::new()), Ok(5));
    assert_eq!(env.mem.bytes_at(dest, 8).unwrap(), b"12-34\0\xaa\xaa");
    assert_eq!(vsprintf(&mut env, dest, format, args, &Vec::new()), Ok(5));
    assert_eq!(env.mem.cstr_at(dest).unwrap(), b"12-34");
}

#[test]
fn sprintf_needs_room_for_the_terminator() {
    let (mut env, args) = with_args(&[12, 34]);
    let format = put_str(&mut env, b"%d-%d");
    let dest = room(&mut env, 5);
    assert_eq!(
        vsprintf(&mut env, dest, format, args, &Vec::new()),
        Err(PrintfError::Mem(MemError::OutOfBounds))
    );
    assert_eq!(env.mem.bytes_at(dest, 5).unwrap(), b"\xaa\xaa\xaa\xaa\xaa");
    let missing: ConstPtr<u8> = Ptr::from_bits(0x20);
    assert_eq!(
        vsprintf(&mut env, dest, missing, args, &Vec::new()),
        Err(PrintfError::Mem(MemError::OutOfBounds))
    );
}

#[test]
fn snprintf_truncates_and_reports_the_whole_length() {
    let (mut env, args) = with_args(&[123456]);
    let format = put_str(&mut env, b"n=%d");
    let dest = room(&mut env, 8);
    assert_eq!(vsnprintf(&mut env, dest, 5, format, args, &Vec::new()), Ok(8));
    assert_eq!(env.mem.bytes_at(dest, 8).unwrap(), b"n=12\0\xaa\xaa\xaa");
    let dots = DotDotDot::new(args.reg_offset, args.stack);
    assert_eq!(snprintf(&mut env, dest, 1, format, dots, &Vec::new()), Ok(8));
    assert_eq!(env.mem.bytes_at(dest, 8).unwrap(), b"\0=12\0\xaa\xaa\xaa");
}

#[test]
fn snprintf_with_room_to_spare_stores_everything() {
    let (mut env, args) = with_args(&[7]);
    let format = put_str(&mut env, b"n=%d");
    let dest = room(&mut env, 8);
    assert_eq!(vsnprintf(&mut env, dest, 8, format, args, &Vec::new()), Ok(3));
    assert_eq!(env.mem.bytes_at(dest, 8).unwrap(), b"n=7\0\xaa\xaa\xaa\xaa");
    assert_eq!(vsnprintf(&mut env, dest, 4, format, args, &Vec::new()), Ok(3));
    assert_eq!(env.mem.cstr_at(dest).unwrap(), b"n=7");
}

#[test]
fn snprintf_checks_the_whole_destination() {
    let (mut env, args) = with_args(&[7]);
    let format = put_str(&mut env, b"n=%d");
    let dest = room(&mut env, 8);
    assert_eq!(
        vsnprintf(&mut env, dest, 9, format, args, &Vec::new()),
        Err(PrintfError::Mem(MemError::OutOfBounds))
    );
    assert_eq!(vsnprintf(&mut env, dest, 0, format, args, &Vec::new()), Err(PrintfError::NoRoom));
    assert_eq!(env.mem.bytes_at(dest, 8).unwrap(), &[0xaa; 8]);
}

#[test]
fn stored_output_takes_the_host_texts() {
    let bits = 0.5f64.to_bits();
    let (mut env, args) = with_args(&[bits as u32, (bits >> 32) as u32]);
    let format = put_str(&mut env, b"[%f]");
    let dest = room(&mut env, 16);
    assert_eq!(
        vsprintf(&mut env, dest, format, args, &Vec::new()),
        Err(PrintfError::HostTextMismatch)
    );
    let host = vec![format!("{:.6}", 0.5f64).into_bytes()];
    assert_eq!(format_output(&env, format, args, &host), Ok(b"[0.500000]".to_vec()));
    assert_eq!(vsprintf(&mut env, dest, format, args, &host), Ok(10));
    assert_eq!(env.mem.cstr_at(dest).unwrap(), b"[0.500000]");
}

fn scan_env(src: &[u8], format: &[u8], targets: u32) -> (Environment, ConstPtr<u8>, ConstPtr<u8>, DotDotDot, Vec<MutPtr<i32>>) {
    let mut env = Environment::new();
    let src = put_str(&mut env, src);
    let format = put_str(&mut env, format);
    let ints = env.mem.allocate(4 * targets.max(1)).unwrap();
    let pointers: Vec<MutPtr<i32>> =
        (0..targets).map(|i| Ptr::from_bits(ints.to_bits() + 4 * i)).collect();
    let list = env.mem.allocate(4 * targets.max(1)).unwrap();
    for (i, p) in pointers.iter().enumerate() {
        let slot: MutPtr<u32> = Ptr::from_bits(list.to_bits() + 4 * i as u32);
        env.mem.write(slot, p.to_bits()).unwrap();
        env.mem.write(*p, -1).unwrap();
    }
    (env, src, format, DotDotDot::new(4, list.cast_const()), pointers)
}

#[test]
fn sscanf_reads_numbers_between_literals() {
    let (mut env, src, format, dots, ints) = scan_env(b"10x20", b"%dx%d", 2);
    assert_eq!(sscanf(&mut env, src, format, dots), Ok(2));
    assert_eq!(env.mem.read(ints[0]), Ok(10));
    assert_eq!(env.mem.read(ints[1]), Ok(20));
}

#[test]
fn sscanf_stops_at_the_first_mismatch_and_answers_one_less() {
    let (mut env, src, format, dots, ints) = scan_env(b"v1.2", b"v%d-%d", 2);
    assert_eq!(sscanf(&mut env, src, format, dots), Ok(0));
    assert_eq!(env.mem.read(ints[0]), Ok(1));
    assert_eq!(env.mem.read(ints[1]), Ok(-1));
    let (mut env, src, format, dots, ints) = scan_env(b"abc", b"x%d", 1);
    assert_eq!(sscanf(&mut env, src, format, dots), Ok(-1));
    assert_eq!(env.mem.read(ints[0]), Ok(-1));
    let (mut env, src, format, dots, _) = scan_env(b"ab", b"abc", 0);
    assert_eq!(sscanf(&mut env, src, format, dots), Ok(-1));
}

#[test]
fn sscanf_reads_an_empty_run_of_digits_as_zero() {
    let (mut env, src, format, dots, ints) = scan_env(b"x", b"%dx", 1);
    assert_eq!(sscanf(&mut env, src, format, dots), Ok(1));
    assert_eq!(env.mem.read(ints[0]), Ok(0));
    let (mut env, src, format, dots, _) = scan_env(b"", b"", 0);
    assert_eq!(sscanf(&mut env, src, format, dots), Ok(0));
}

#[test]
fn sscanf_errors() {
    let (mut env, src, format, dots, _) = scan_env(b"12", b"%s", 1);
    assert_eq!(sscanf(&mut env, src, format, dots), Err(PrintfError::UnknownSpecifier));
    let (mut env, src, format, dots, _) = scan_env(b"12", b"%", 1);
    assert_eq!(sscanf(&mut env, src, format, dots), Err(PrintfError::UnknownSpecifier));
    let (mut env, src, format, dots, ints) = scan_env(b"2147483648", b"%d", 1);
    assert_eq!(sscanf(&mut env, src, format, dots), Err(PrintfError::Overflow));
    assert_eq!(env.mem.read(ints[0]), Ok(-1));
    let (mut env, src, format, dots, ints) = scan_env(b"2147483647", b"%d", 1);
    assert_eq!(sscanf(&mut env, src, format, dots), Ok(1));
    assert_eq!(env.mem.read(ints[0]), Ok(i32::MAX));
    let (mut env, src, format, _, _) = scan_env(b"1", b"%d", 1);
    let nowhere = DotDotDot::new(4, Ptr::from_bits(0x40));
    assert_eq!(
        sscanf(&mut env, src, format, nowhere),
        Err(PrintfError::Mem(MemError::OutOfBounds))
    );
    assert_eq!(
        sscanf(&mut env, Ptr::null(), format, nowhere),
        Err(PrintfError::Mem(MemError::OutOfBounds))
    );
}

#[test]
fn sscanf_stores_nothing_unless_every_target_can_be_written() {
    let (mut env, src, format, dots, ints) = scan_env(b"1 2", b"%d %d", 2);
    let second: MutPtr<u32> = Ptr::from_bits(dots.args.stack.to_bits() + 4);
    env.mem.write(second, 0x30).unwrap();
    assert_eq!(sscanf(&mut env, src, format, dots), Err(PrintfError::Mem(MemError::OutOfBounds)));
    assert_eq!(env.mem.read(ints[0]), Ok(-1));
}

#[test]
fn scan_lists_what_is_to_be_stored() {
    let (env, _, _, dots, ints) = scan_env(b"", b"", 2);
    let (stores, answer) = scan(b"%d,%d", b"5,6", &env, dots.start()).unwrap();
    assert_eq!(answer, 2);
    assert_eq!(stores.len(), 2);
    assert_eq!((stores[0].target.to_bits(), stores[0].value), (ints[0].to_bits(), 5));
    assert_eq!((stores[1].target.to_bits(), stores[1].value), (ints[1].to_bits(), 6));
}
