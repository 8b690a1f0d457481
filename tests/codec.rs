use dtm2txt::decoder::dtm_decoder::DtmDecoder;
use dtm2txt::decoder::text_decoder::TextDecoder;
use dtm2txt::dtm::{ByteString, ControllerFrame, Dtm, DtmHeader};
use dtm2txt::encoder::dtm_encoder::DtmEncoder;
use dtm2txt::encoder::text_encoder::TextEncoder;
use dtm2txt::error::{ControllerInputParseError, Dtm2txtError, HexError, IntErrorKind};
use dtm2txt::hex::{decode_hex, encode_hex};
use dtm2txt::layout::{read_string, write_str};
use dtm2txt::text::parse_u8;

fn sample_header(input_count: u64) -> DtmHeader {
    DtmHeader {
        game_id: String::from("GALE01"),
        wii_game: false,
        controllers: 1,
        savestate: false,
        vi_count: 0x0102_0304_0506_0708,
        input_count,
        lag_counter: 3,
        reserved1: 0,
        rerecord_count: 0xDEAD_BEEF,
        author: String::from("someone"),
        video_backend: String::from("OGL"),
        audio_emulator: ByteString([7; 16]),
        md5: ByteString([0xAB; 16]),
        start_time: 1_234_567,
        valid_config: true,
        idle_skipping: true,
        dual_core: false,
        progressive_scan: true,
        dsp_hle: true,
        fast_disc: false,
        cpu_core: 1,
        efb_access: true,
        efb_copy: false,
        efb_to_texture: true,
        efb_copy_cache: false,
        emulate_format_changes: true,
        use_xfb: false,
        use_real_xfb: false,
        memory_cards: 3,
        memory_card_blank: false,
        bongos_plugged: 0,
        sync_gpu: true,
        netplay: false,
        sysconf_pal60: true,
        reserved2: ByteString([0; 12]),
        second_disc: String::new(),
        git_revision: ByteString([0x12; 20]),
        dsp_irom_hash: 0x1111_2222,
        dsp_coef_hash: 0x3333_4444,
        tick_count: 99,
        reserved3: ByteString([0; 11]),
    }
}

fn frame(start: bool, a: bool, axes: [u8; 6], change_disc: bool) -> ControllerFrame {
    ControllerFrame {
        start,
        a,
        b: true,
        x: false,
        y: false,
        z: true,
        up: false,
        down: true,
        left: false,
        right: false,
        l: true,
        r: false,
        change_disc,
        reset: false,
        controller_connected: true,
        reserved: false,
        l_pressure: axes[0],
        r_pressure: axes[1],
        analog_x: axes[2],
        analog_y: axes[3],
        c_x: axes[4],
        c_y: axes[5],
    }
}

fn sample_movie() -> Dtm {
    let frames = vec![
        frame(true, false, [0, 0, 128, 128, 128, 128], false),
        frame(false, true, [5, 10, 255, 0, 99, 100], true),
        frame(true, true, [1, 2, 3, 4, 5, 6], false),
    ];
    Dtm { header: sample_header(frames.len() as u64), controller_data: frames }
}

fn header_bytes_with(game_id: &[u8], wii_game: u8) -> Vec<u8> {
    let mut b = vec![0x44, 0x54, 0x4D, 0x1A];
    b.extend_from_slice(game_id);
    b.push(wii_game);
    b.resize(256, 0);
    b
}

#[test]
fn decode_header_game_id_and_flag() {
    let bytes = header_bytes_with(&[0x47, 0x41, 0x4C, 0x45, 0x30, 0x31], 0);
    let dtm = DtmDecoder::new(bytes).decode().unwrap();
    assert_eq!(dtm.header.game_id, "GALE01");
    assert!(!dtm.header.wii_game);
    assert_eq!(dtm.header.input_count, 0);
    assert!(dtm.controller_data.is_empty());
}

#[test]
fn decode_frame_record() {
    let bytes = [0x03, 0x00, 5, 10, 128, 130, 0, 255];
    let f = ControllerFrame::read(&bytes, 0);
    assert!(f.start && f.a);
    assert!(!f.b && !f.x && !f.y && !f.z && !f.up && !f.down);
    assert!(!f.left && !f.right && !f.l && !f.r);
    assert!(!f.change_disc && !f.reset && !f.controller_connected && !f.reserved);
    assert_eq!((f.l_pressure, f.r_pressure), (5, 10));
    assert_eq!((f.analog_x, f.analog_y), (128, 130));
    assert_eq!((f.c_x, f.c_y), (0, 255));
}

#[test]
fn encode_frame_record_bits() {
    let f = frame(true, false, [5, 10, 128, 130, 0, 255], true);
    let mut out = Vec::new();
    f.write_to_dtm(&mut out);
    // start, B, Z, down; left-trigger digital, disc change, controller connected
    assert_eq!(out, vec![0x01 | 0x04 | 0x20 | 0x80, 0x04 | 0x10 | 0x40, 5, 10, 128, 130, 0, 255]);
}

#[test]
fn parse_text_line() {
    let f = ControllerFrame::from_text("S a B x Y z U d L r LT rt 5 10 128 130 0 255 CD").unwrap();
    assert!(f.start && !f.a && f.b && !f.x && f.y && !f.z);
    assert!(f.up && !f.down && f.left && !f.right && f.l && !f.r);
    assert!(f.change_disc && !f.reset && !f.controller_connected && !f.reserved);
    assert_eq!(
        [f.l_pressure, f.r_pressure, f.analog_x, f.analog_y, f.c_x, f.c_y],
        [5, 10, 128, 130, 0, 255]
    );
}

#[test]
fn format_text_line() {
    let f = frame(true, false, [5, 10, 128, 130, 0, 255], true);
    assert_eq!(f.to_text(), "S a B x y Z u D l r LT rt   5  10 128 130   0 255 CD CC");
    assert_eq!(ControllerFrame::from_text(&f.to_text()), Ok(f));
}

#[test]
fn text_line_missing_last_axis() {
    let text = b"{\"x\": 1}\nS a B x Y z U d L r LT rt 5 10 128 130 0\n".to_vec();
    let r = TextDecoder::new(text).decode(sample_header(0), 8);
    assert_eq!(
        r.unwrap_err(),
        Dtm2txtError::ControllerInputParseError {
            reason: ControllerInputParseError::MissingTokenError,
            line: 2,
        }
    );
}

#[test]
fn text_error_line_counts_header_lines_and_blank_lines() {
    let text =
        b"{\n  \"x\": 1\n}\nS a B x Y z U d L r LT rt 5 10 128 130 0 1\n\nS a B x Y z U d L r LT rt 5 10 128 130 0 256\n"
            .to_vec();
    let r = TextDecoder::new(text).decode(sample_header(0), 13);
    assert_eq!(
        r.unwrap_err(),
        Dtm2txtError::ControllerInputParseError {
            reason: ControllerInputParseError::ParseIntError(IntErrorKind::PosOverflow),
            line: 6,
        }
    );
}

#[test]
fn text_invalid_button_and_unknown_flag() {
    let bad_button = ControllerFrame::from_text("S a Q x Y z U d L r LT rt 5 10 128 130 0 1");
    assert_eq!(bad_button, Err(ControllerInputParseError::InvalidButtonError));
    let bad_flag = ControllerFrame::from_text("S a B x Y z U d L r LT rt 5 10 128 130 0 1 CD XX");
    assert_eq!(bad_flag, Err(ControllerInputParseError::UnknownFlagError));
    let bad_axis = ControllerFrame::from_text("S a B x Y z U d L r LT rt 5 1x 128 130 0 1");
    assert_eq!(bad_axis, Err(ControllerInputParseError::ParseIntError(IntErrorKind::InvalidDigit)));
}

#[test]
fn text_line_with_unicode_whitespace() {
    let f = ControllerFrame::from_text("S\u{3000}a\tB x Y z U d L r LT rt +5 10 128 130 0 255 RST RSV").unwrap();
    assert!(f.start && f.b && f.reset && f.reserved && !f.change_disc);
    assert_eq!(f.l_pressure, 5);
}

#[test]
fn parse_u8_edges() {
    let t = |s: &str| s.chars().collect::<Vec<char>>();
    assert_eq!(parse_u8(&t("255")), Ok(255));
    assert_eq!(parse_u8(&t("007")), Ok(7));
    assert_eq!(parse_u8(&t("256")), Err(IntErrorKind::PosOverflow));
    assert_eq!(parse_u8(&t("999x")), Err(IntErrorKind::PosOverflow));
    assert_eq!(parse_u8(&t("-1")), Err(IntErrorKind::InvalidDigit));
    assert_eq!(parse_u8(&t("+")), Err(IntErrorKind::InvalidDigit));
    assert_eq!(parse_u8(&t("")), Err(IntErrorKind::Empty));
}

#[test]
fn hex_invalid_character() {
    assert_eq!(ByteString::<1>::from_hex("ZZ"), Err(HexError::InvalidCharacter));
    assert_eq!(decode_hex("ZZ", 1), Err(HexError::InvalidCharacter));
}

#[test]
fn hex_invalid_length() {
    assert_eq!(ByteString::<2>::from_hex("ABC"), Err(HexError::InvalidLength));
    assert_eq!(decode_hex("", 1), Err(HexError::InvalidLength));
}

#[test]
fn hex_round_trip_and_case() {
    let b = ByteString([0x00, 0x1F, 0xA0, 0xFF]);
    assert_eq!(b.to_hex(), "001FA0FF");
    assert_eq!(ByteString::<4>::from_hex(&b.to_hex()), Ok(b));
    assert_eq!(ByteString::<4>::from_hex("001fa0ff"), Ok(b));
    assert_eq!(encode_hex(&[0xC3]), "C3");
}

#[test]
fn fixed_string_round_trip() {
    let mut out = Vec::new();
    assert_eq!(write_str(&mut out, "abc", 6), Ok(()));
    assert_eq!(out, b"abc\0\0\0".to_vec());
    assert_eq!(read_string(&out, 0, 6), Ok(String::from("abc")));
    let mut full = Vec::new();
    assert_eq!(write_str(&mut full, "abcdef", 6), Ok(()));
    assert_eq!(read_string(&full, 0, 6), Ok(String::from("abcdef")));
}

#[test]
fn fixed_string_too_long() {
    let mut out = Vec::new();
    assert_eq!(write_str(&mut out, "abcdefg", 6), Err(Dtm2txtError::StringTooLong));
    assert!(out.is_empty());
    let mut header = sample_header(0);
    header.game_id = String::from("GALE01X");
    let movie = Dtm { header, controller_data: Vec::new() };
    assert_eq!(movie.write_to_dtm(), Err(Dtm2txtError::StringTooLong));
}

#[test]
fn binary_round_trip() {
    let movie = sample_movie();
    let bytes = DtmEncoder::new(Vec::new()).encode(&movie).unwrap();
    assert_eq!(bytes.len(), 256 + 8 * 3);
    assert_eq!(&bytes[0..4], &[0x44, 0x54, 0x4D, 0x1A]);
    assert_eq!(&bytes[13..21], &[8, 7, 6, 5, 4, 3, 2, 1]);
    assert_eq!(&bytes[45..49], &[0xEF, 0xBE, 0xAD, 0xDE]);
    let back = DtmDecoder::new(bytes.clone()).decode().unwrap();
    assert_eq!(back, movie);
    assert_eq!(back.header.vi_count, 0x0102_0304_0506_0708);
    assert_eq!(Dtm::read(&bytes).unwrap(), movie);
}

#[test]
fn binary_trailing_nul_is_lost() {
    let mut header = sample_header(0);
    header.author = String::from("ab\0");
    let movie = Dtm { header, controller_data: Vec::new() };
    let back = Dtm::read(&movie.write_to_dtm().unwrap()).unwrap();
    assert_eq!(back.header.author, "ab");
}

#[test]
fn binary_short_input_and_bad_magic() {
    assert_eq!(Dtm::read(&[0x44, 0x54]), Err(Dtm2txtError::UnexpectedEof));
    assert_eq!(Dtm::read(&[0x44, 0x54, 0x4D, 0x1B, 0, 0]), Err(Dtm2txtError::BadMagic));
    let header_only = header_bytes_with(b"GALE01", 1);
    assert_eq!(Dtm::read(&header_only[..200]), Err(Dtm2txtError::UnexpectedEof));
    let mut announced = header_only.clone();
    announced[21] = 2;
    announced.extend_from_slice(&[0; 8]);
    assert_eq!(Dtm::read(&announced), Err(Dtm2txtError::UnexpectedEof));
}

#[test]
fn binary_invalid_utf8() {
    let bytes = header_bytes_with(&[0xFF, 0x41, 0, 0, 0, 0], 0);
    assert_eq!(Dtm::read(&bytes), Err(Dtm2txtError::FromUtf8Error));
}

#[test]
fn text_round_trip() {
    let movie = sample_movie();
    let json = "{\n  \"game_id\": \"GALE01\"\n}";
    let bytes = TextEncoder::new(Vec::new()).encode(&movie, json);
    let text = String::from_utf8(bytes.clone()).unwrap();
    assert!(text.starts_with("{\n  \"game_id\": \"GALE01\"\n}\nS a B x y Z u D l r LT rt   0   0 128 128 128 128 CC\n"));
    assert_eq!(movie.write(json), bytes);
    let mut stale = movie.header.clone();
    stale.input_count = 77;
    let back = TextDecoder::new(bytes.clone()).decode(stale, json.len()).unwrap();
    assert_eq!(back.controller_data, movie.controller_data);
    assert_eq!(back.header, movie.header);
    assert_eq!(Dtm::read_from_text(bytes, movie.header.clone(), json.len()).unwrap(), movie);
}

#[test]
fn text_crlf_lines() {
    let text = b"{}\r\nS a B x Y z U d L r LT rt 1 2 3 4 5 6\r\ns A b X y Z u D l R lt RT 0 0 0 0 0 0".to_vec();
    let back = TextDecoder::new(text).decode(sample_header(9), 2).unwrap();
    assert_eq!(back.controller_data.len(), 2);
    assert_eq!(back.header.input_count, 2);
    assert!(back.controller_data[1].a && back.controller_data[1].r);
}

#[test]
fn text_invalid_utf8_line() {
    let text = b"{}\nS a B x Y z U d L r LT rt 1 2 3 4 5 \xFF\n".to_vec();
    assert_eq!(TextDecoder::new(text).decode(sample_header(0), 2), Err(Dtm2txtError::FromUtf8Error));
}

#[test]
fn encoder_appends_to_sink() {
    let movie = Dtm { header: sample_header(0), controller_data: Vec::new() };
    let out = DtmEncoder::new(vec![9, 9]).encode(&movie).unwrap();
    assert_eq!(&out[0..2], &[9, 9]);
    assert_eq!(out.len(), 258);
    let text = TextEncoder::new(vec![b'#']).encode(&movie, "{}");
    assert_eq!(text, b"#{}\n".to_vec());
}

#[test]
fn error_descriptions() {
    assert_eq!(Dtm2txtError::BadMagic.describe(), "bad magic value");
    let e = Dtm2txtError::ControllerInputParseError {
        reason: ControllerInputParseError::MissingTokenError,
        line: 3,
    };
    assert_eq!(e.describe(), "missing a button or axis");
}
