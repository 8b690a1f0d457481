use vstd::prelude::*;

use crate::error::Dtm2txtError;
pub use crate::frame::ControllerFrame;
use crate::frame::{
    frame_at, frames_bytes, lemma_frame_in_frames, lemma_frame_round_trip, lemma_frames_len,
    FRAME_LEN,
};
use crate::layout::{
    fits, le_bytes, le_value, lemma_fixed_string_round_trip, lemma_le_round_trip,
    lemma_str_bytes_len, lemma_u64_bound, no_trailing_nul, push_bytes, read_bytes, read_string,
    read_u32_le, read_u64_le, str_bytes, string_field, u32_le_bytes, u64_le_bytes, write_str,
};

verus! {

/// Length of the binary header, magic signature included.
pub const HEADER_LEN: usize = 256;

/// The four bytes that open every binary movie: `DTM` and `0x1A`.
pub open spec fn magic() -> Seq<u8> {
    Seq::empty().push(0x44u8).push(0x54u8).push(0x4Du8).push(0x1Au8)
}

/// A fixed-length opaque byte field of the header.
#[derive(Clone, Copy, Debug, PartialEq, Eq)]
pub struct ByteString<const N: usize>(pub [u8; N]);

/// Tag of the audio emulator that recorded the movie.
pub type AudioEmulator = ByteString<16>;

/// Checksum of the game image.
pub type Md5 = ByteString<16>;

/// Reserved header bytes.
pub type Reserved2 = ByteString<12>;

/// Revision of the emulator that recorded the movie.
pub type GitRevision = ByteString<20>;

/// Reserved header bytes at the end of the header.
pub type Reserved3 = ByteString<11>;


/// The fixed metadata record that precedes the frames.
#[derive(Clone, Debug, PartialEq, Eq)]
pub struct DtmHeader {
    pub game_id: String,
    pub wii_game: bool,
    pub controllers: u8,
    pub savestate: bool,
    pub vi_count: u64,
    pub input_count: u64,
    pub lag_counter: u64,
    pub reserved1: u64,
    pub rerecord_count: u32,
    pub author: String,
    pub video_backend: String,
    pub audio_emulator: AudioEmulator,
    pub md5: Md5,
    pub start_time: u64,
    pub valid_config: bool,
    pub idle_skipping: bool,
    pub dual_core: bool,
    pub progressive_scan: bool,
    pub dsp_hle: bool,
    pub fast_disc: bool,
    pub cpu_core: u8,
    pub efb_access: bool,
    pub efb_copy: bool,
    pub efb_to_texture: bool,
    pub efb_copy_cache: bool,
    pub emulate_format_changes: bool,
    pub use_xfb: bool,
    pub use_real_xfb: bool,
    pub memory_cards: u8,
    pub memory_card_blank: bool,
    pub bongos_plugged: u8,
    pub sync_gpu: bool,
    pub netplay: bool,
    pub sysconf_pal60: bool,
    pub reserved2: Reserved2,
    pub second_disc: String,
    pub git_revision: GitRevision,
    pub dsp_irom_hash: u32,
    pub dsp_coef_hash: u32,
    pub tick_count: u64,
    pub reserved3: Reserved3,
}

/// The mathematical value of a header: strings as characters, byte fields as
/// byte sequences.
pub struct HeaderModel {
    pub game_id: Seq<char>,
    pub wii_game: bool,
    pub controllers: u8,
    pub savestate: bool,
    pub vi_count: u64,
    pub input_count: u64,
    pub lag_counter: u64,
    pub reserved1: u64,
    pub rerecord_count: u32,
    pub author: Seq<char>,
    pub video_backend: Seq<char>,
    pub audio_emulator: Seq<u8>,
    pub md5: Seq<u8>,
    pub start_time: u64,
    pub valid_config: bool,
    pub idle_skipping: bool,
    pub dual_core: bool,
    pub progressive_scan: bool,
    pub dsp_hle: bool,
    pub fast_disc: bool,
    pub cpu_core: u8,
    pub efb_access: bool,
    pub efb_copy: bool,
    pub efb_to_texture: bool,
    pub efb_copy_cache: bool,
    pub emulate_format_changes: bool,
    pub use_xfb: bool,
    pub use_real_xfb: bool,
    pub memory_cards: u8,
    pub memory_card_blank: bool,
    pub bongos_plugged: u8,
    pub sync_gpu: bool,
    pub netplay: bool,
    pub sysconf_pal60: bool,
    pub reserved2: Seq<u8>,
    pub second_disc: Seq<char>,
    pub git_revision: Seq<u8>,
    pub dsp_irom_hash: u32,
    pub dsp_coef_hash: u32,
    pub tick_count: u64,
    pub reserved3: Seq<u8>,
}

impl View for DtmHeader {
    type V = HeaderModel;

    open spec fn view(&self) -> HeaderModel {
        HeaderModel {
            game_id: self.game_id@,
            wii_game: self.wii_game,
            controllers: self.controllers,
            savestate: self.savestate,
            vi_count: self.vi_count,
            input_count: self.input_count,
            lag_counter: self.lag_counter,
            reserved1: self.reserved1,
            rerecord_count: self.rerecord_count,
            author: self.author@,
            video_backend: self.video_backend@,
            audio_emulator: self.audio_emulator.0@,
            md5: self.md5.0@,
            start_time: self.start_time,
            valid_config: self.valid_config,
            idle_skipping: self.idle_skipping,
            dual_core: self.dual_core,
            progressive_scan: self.progressive_scan,
            dsp_hle: self.dsp_hle,
            fast_disc: self.fast_disc,
            cpu_core: self.cpu_core,
            efb_access: self.efb_access,
            efb_copy: self.efb_copy,
            efb_to_texture: self.efb_to_texture,
            efb_copy_cache: self.efb_copy_cache,
            emulate_format_changes: self.emulate_format_changes,
            use_xfb: self.use_xfb,
            use_real_xfb: self.use_real_xfb,
            memory_cards: self.memory_cards,
            memory_card_blank: self.memory_card_blank,
            bongos_plugged: self.bongos_plugged,
            sync_gpu: self.sync_gpu,
            netplay: self.netplay,
            sysconf_pal60: self.sysconf_pal60,
            reserved2: self.reserved2.0@,
            second_disc: self.second_disc@,
            git_revision: self.git_revision.0@,
            dsp_irom_hash: self.dsp_irom_hash,
            dsp_coef_hash: self.dsp_coef_hash,
            tick_count: self.tick_count,
            reserved3: self.reserved3.0@,
        }
    }
}

/// A whole movie: its header and its frames in order.
#[derive(Clone, Debug, PartialEq, Eq)]
pub struct Dtm {
    pub header: DtmHeader,
    pub controller_data: Vec<ControllerFrame>,
}

/// The mathematical value of a movie.
pub struct DtmModel {
    pub header: HeaderModel,
    pub frames: Seq<ControllerFrame>,
}

impl View for Dtm {
    type V = DtmModel;

    open spec fn view(&self) -> DtmModel {
        DtmModel { header: self.header@, frames: self.controller_data@ }
    }
}

/// The byte that stands for a flag: 1 for true, 0 for false.
pub open spec fn bool_byte(b: bool) -> u8 {
    b as u8
}

/// Whether every string of the header fits in its field.
pub open spec fn header_fits(h: HeaderModel) -> bool {
    &&& fits(h.game_id, 6)
    &&& fits(h.author, 32)
    &&& fits(h.video_backend, 16)
    &&& fits(h.second_disc, 40)
}

/// Header bytes, part 1: identity and counters.
pub open spec fn header_part1(h: HeaderModel) -> Seq<u8> {
    str_bytes(h.game_id, 6)
        .push(bool_byte(h.wii_game))
        .push(h.controllers)
        .push(bool_byte(h.savestate))
        + le_bytes(h.vi_count as nat, 8)
        + le_bytes(h.input_count as nat, 8)
        + le_bytes(h.lag_counter as nat, 8)
        + le_bytes(h.reserved1 as nat, 8)
        + le_bytes(h.rerecord_count as nat, 4)
}

/// Header bytes, part 2: author, backend, blobs and start time.
pub open spec fn header_part2(h: HeaderModel) -> Seq<u8> {
    str_bytes(h.author, 32)
        + str_bytes(h.video_backend, 16)
        + h.audio_emulator
        + h.md5
        + le_bytes(h.start_time as nat, 8)
}

/// Header bytes, part 3: configuration flags.
pub open spec fn header_part3(h: HeaderModel) -> Seq<u8> {
    Seq::empty()
        .push(bool_byte(h.valid_config))
        .push(bool_byte(h.idle_skipping))
        .push(bool_byte(h.dual_core))
        .push(bool_byte(h.progressive_scan))
        .push(bool_byte(h.dsp_hle))
}

/// Header bytes, part 4: configuration flags.
pub open spec fn header_part4(h: HeaderModel) -> Seq<u8> {
    Seq::empty()
        .push(bool_byte(h.fast_disc))
        .push(h.cpu_core)
        .push(bool_byte(h.efb_access))
        .push(bool_byte(h.efb_copy))
        .push(bool_byte(h.efb_to_texture))
}

/// Header bytes, part 5: configuration flags.
pub open spec fn header_part5(h: HeaderModel) -> Seq<u8> {
    Seq::empty()
        .push(bool_byte(h.efb_copy_cache))
        .push(bool_byte(h.emulate_format_changes))
        .push(bool_byte(h.use_xfb))
        .push(bool_byte(h.use_real_xfb))
        .push(h.memory_cards)
}

/// Header bytes, part 6: configuration flags.
pub open spec fn header_part6(h: HeaderModel) -> Seq<u8> {
    Seq::empty()
        .push(bool_byte(h.memory_card_blank))
        .push(h.bongos_plugged)
        .push(bool_byte(h.sync_gpu))
        .push(bool_byte(h.netplay))
        .push(bool_byte(h.sysconf_pal60))
}

/// Header bytes, part 7: trailing fields.
pub open spec fn header_part7(h: HeaderModel) -> Seq<u8> {
    h.reserved2
        + str_bytes(h.second_disc, 40)
        + h.git_revision
        + le_bytes(h.dsp_irom_hash as nat, 4)
        + le_bytes(h.dsp_coef_hash as nat, 4)
        + le_bytes(h.tick_count as nat, 8)
        + h.reserved3
}

/// The header fields after the magic signature, in order, little-endian, each
/// string zero-padded to its width.
pub open spec fn header_bytes(h: HeaderModel) -> Seq<u8> {
    header_part1(h)
        + header_part2(h)
        + header_part3(h)
        + header_part4(h)
        + header_part5(h)
        + header_part6(h)
        + header_part7(h)
}

/// The binary form of a movie: magic, header, then one record per frame.
pub open spec fn binary_bytes(m: DtmModel) -> Seq<u8> {
    magic() + header_bytes(m.header) + frames_bytes(m.frames)
}

/// What encoding a movie to the binary form gives.
pub open spec fn encode_binary_spec(m: DtmModel) -> Result<Seq<u8>, Dtm2txtError> {
    if header_fits(m.header) {
        Ok(binary_bytes(m))
    } else {
        Err(Dtm2txtError::StringTooLong)
    }
}

/// The string field of `w` bytes at `o`, once it is known to be valid.
pub open spec fn str_at(b: Seq<u8>, o: int, w: int) -> Seq<char> {
    string_field(b.subrange(o, o + w))->Some_0
}

/// Whether the string field of `w` bytes at `o` is valid UTF-8.
pub open spec fn str_ok(b: Seq<u8>, o: int, w: int) -> bool {
    string_field(b.subrange(o, o + w)) is Some
}

/// The header that the first 256 bytes of `b` hold, read field by field at
/// fixed offsets.
pub open spec fn header_at(b: Seq<u8>) -> HeaderModel {
    HeaderModel {
        game_id: str_at(b, 4, 6),
        wii_game: b[10] != 0,
        controllers: b[11],
        savestate: b[12] != 0,
        vi_count: le_value(b.subrange(13, 21)) as u64,
        input_count: le_value(b.subrange(21, 29)) as u64,
        lag_counter: le_value(b.subrange(29, 37)) as u64,
        reserved1: le_value(b.subrange(37, 45)) as u64,
        rerecord_count: le_value(b.subrange(45, 49)) as u32,
        author: str_at(b, 49, 32),
        video_backend: str_at(b, 81, 16),
        audio_emulator: b.subrange(97, 113),
        md5: b.subrange(113, 129),
        start_time: le_value(b.subrange(129, 137)) as u64,
        valid_config: b[137] != 0,
        idle_skipping: b[138] != 0,
        dual_core: b[139] != 0,
        progressive_scan: b[140] != 0,
        dsp_hle: b[141] != 0,
        fast_disc: b[142] != 0,
        cpu_core: b[143],
        efb_access: b[144] != 0,
        efb_copy: b[145] != 0,
        efb_to_texture: b[146] != 0,
        efb_copy_cache: b[147] != 0,
        emulate_format_changes: b[148] != 0,
        use_xfb: b[149] != 0,
        use_real_xfb: b[150] != 0,
        memory_cards: b[151],
        memory_card_blank: b[152] != 0,
        bongos_plugged: b[153],
        sync_gpu: b[154] != 0,
        netplay: b[155] != 0,
        sysconf_pal60: b[156] != 0,
        reserved2: b.subrange(157, 169),
        second_disc: str_at(b, 169, 40),
        git_revision: b.subrange(209, 229),
        dsp_irom_hash: le_value(b.subrange(229, 233)) as u32,
        dsp_coef_hash: le_value(b.subrange(233, 237)) as u32,
        tick_count: le_value(b.subrange(237, 245)) as u64,
        reserved3: b.subrange(245, 256),
    }
}

/// The first failure met when reading the header of `b` field by field: a
/// short input, a wrong magic signature, or a string field that is not UTF-8.
pub open spec fn header_error(b: Seq<u8>) -> Option<Dtm2txtError> {
    if b.len() < 4 {
        Some(Dtm2txtError::UnexpectedEof)
    } else if b.subrange(0, 4) != magic() {
        Some(Dtm2txtError::BadMagic)
    } else if b.len() < 10 {
        Some(Dtm2txtError::UnexpectedEof)
    } else if !str_ok(b, 4, 6) {
        Some(Dtm2txtError::FromUtf8Error)
    } else if b.len() < 81 {
        Some(Dtm2txtError::UnexpectedEof)
    } else if !str_ok(b, 49, 32) {
        Some(Dtm2txtError::FromUtf8Error)
    } else if b.len() < 97 {
        Some(Dtm2txtError::UnexpectedEof)
    } else if !str_ok(b, 81, 16) {
        Some(Dtm2txtError::FromUtf8Error)
    } else if b.len() < 209 {
        Some(Dtm2txtError::UnexpectedEof)
    } else if !str_ok(b, 169, 40) {
        Some(Dtm2txtError::FromUtf8Error)
    } else if b.len() < 256 {
        Some(Dtm2txtError::UnexpectedEof)
    } else {
        None
    }
}

/// What decoding `b` from the binary form gives: the header, then exactly as
/// many frames as the header's input count announces.
pub open spec fn decode_binary_spec(b: Seq<u8>) -> Result<DtmModel, Dtm2txtError> {
    match header_error(b) {
        Some(e) => Err(e),
        None => {
            let h = header_at(b);
            if b.len() < 256 + 8 * h.input_count {
                Err(Dtm2txtError::UnexpectedEof)
            } else {
                Ok(
                    DtmModel {
                        header: h,
                        frames: Seq::new(h.input_count as nat, |i: int| frame_at(b, 256 + 8 * i)),
                    },
                )
            }
        },
    }
}

impl DtmHeader {
    /// Reads the magic signature and the header at the start of `bytes`.
    pub fn read(bytes: &[u8]) -> (r: Result<DtmHeader, Dtm2txtError>)
        ensures
            match r {
                Ok(h) => header_error(bytes@) is None && h@ == header_at(bytes@),
                Err(e) => header_error(bytes@) == Some(e),
            },
    {
        if bytes.len() < 4 {
            return Err(Dtm2txtError::UnexpectedEof);
        }
        if !(bytes[0] == 0x44 && bytes[1] == 0x54 && bytes[2] == 0x4D && bytes[3] == 0x1A) {
            assert(bytes@.subrange(0, 4) != magic()) by {
                if bytes@.subrange(0, 4) == magic() {
                    assert(bytes@[0] == bytes@.subrange(0, 4)[0]);
                    assert(bytes@[1] == bytes@.subrange(0, 4)[1]);
                    assert(bytes@[2] == bytes@.subrange(0, 4)[2]);
                    assert(bytes@[3] == bytes@.subrange(0, 4)[3]);
                }
            }
            return Err(Dtm2txtError::BadMagic);
        }
        assert(bytes@.subrange(0, 4) =~= magic());
        if bytes.len() < 10 {
            return Err(Dtm2txtError::UnexpectedEof);
        }
        let game_id = match read_string(bytes, 4, 6) {
            Ok(s) => s,
            Err(e) => return Err(e),
        };
        if bytes.len() < 81 {
            return Err(Dtm2txtError::UnexpectedEof);
        }
        let author = match read_string(bytes, 49, 32) {
            Ok(s) => s,
            Err(e) => return Err(e),
        };
        if bytes.len() < 97 {
            return Err(Dtm2txtError::UnexpectedEof);
        }
        let video_backend = match read_string(bytes, 81, 16) {
            Ok(s) => s,
            Err(e) => return Err(e),
        };
        if bytes.len() < 209 {
            return Err(Dtm2txtError::UnexpectedEof);
        }
        let second_disc = match read_string(bytes, 169, 40) {
            Ok(s) => s,
            Err(e) => return Err(e),
        };
        if bytes.len() < HEADER_LEN {
            return Err(Dtm2txtError::UnexpectedEof);
        }
        let header = Self::read_fields(bytes, game_id, author, video_backend, second_disc);
        assert(header@ == header_at(bytes@));
        Ok(header)
    }

    /// The header whose strings are given and whose other fields are read at
    /// their offsets in `bytes`.
    fn read_fields(
        bytes: &[u8],
        game_id: String,
        author: String,
        video_backend: String,
        second_disc: String,
    ) -> (h: DtmHeader)
        requires
            bytes@.len() >= HEADER_LEN,
        ensures
            h.game_id == game_id,
            h.author == author,
            h.video_backend == video_backend,
            h.second_disc == second_disc,
            h@.wii_game == header_at(bytes@).wii_game,
            h@.controllers == header_at(bytes@).controllers,
            h@.savestate == header_at(bytes@).savestate,
            h@.vi_count == header_at(bytes@).vi_count,
            h@.input_count == header_at(bytes@).input_count,
            h@.lag_counter == header_at(bytes@).lag_counter,
            h@.reserved1 == header_at(bytes@).reserved1,
            h@.rerecord_count == header_at(bytes@).rerecord_count,
            h@.audio_emulator == header_at(bytes@).audio_emulator,
            h@.md5 == header_at(bytes@).md5,
            h@.start_time == header_at(bytes@).start_time,
            h@.valid_config == header_at(bytes@).valid_config,
            h@.idle_skipping == header_at(bytes@).idle_skipping,
            h@.dual_core == header_at(bytes@).dual_core,
            h@.progressive_scan == header_at(bytes@).progressive_scan,
            h@.dsp_hle == header_at(bytes@).dsp_hle,
            h@.fast_disc == header_at(bytes@).fast_disc,
            h@.cpu_core == header_at(bytes@).cpu_core,
            h@.efb_access == header_at(bytes@).efb_access,
            h@.efb_copy == header_at(bytes@).efb_copy,
            h@.efb_to_texture == header_at(bytes@).efb_to_texture,
            h@.efb_copy_cache == header_at(bytes@).efb_copy_cache,
            h@.emulate_format_changes == header_at(bytes@).emulate_format_changes,
            h@.use_xfb == header_at(bytes@).use_xfb,
            h@.use_real_xfb == header_at(bytes@).use_real_xfb,
            h@.memory_cards == header_at(bytes@).memory_cards,
            h@.memory_card_blank == header_at(bytes@).memory_card_blank,
            h@.bongos_plugged == header_at(bytes@).bongos_plugged,
            h@.sync_gpu == header_at(bytes@).sync_gpu,
            h@.netplay == header_at(bytes@).netplay,
            h@.sysconf_pal60 == header_at(bytes@).sysconf_pal60,
            h@.reserved2 == header_at(bytes@).reserved2,
            h@.git_revision == header_at(bytes@).git_revision,
            h@.dsp_irom_hash == header_at(bytes@).dsp_irom_hash,
            h@.dsp_coef_hash == header_at(bytes@).dsp_coef_hash,
            h@.tick_count == header_at(bytes@).tick_count,
            h@.reserved3 == header_at(bytes@).reserved3,
    {
        let wii_game = bytes[10] != 0;
        let controllers = bytes[11];
        let savestate = bytes[12] != 0;
        let vi_count = read_u64_le(bytes, 13);
        let input_count = read_u64_le(bytes, 21);
        let lag_counter = read_u64_le(bytes, 29);
        let reserved1 = read_u64_le(bytes, 37);
        let rerecord_count = read_u32_le(bytes, 45);
        let audio_emulator = ByteString(read_bytes(bytes, 97));
        let md5 = ByteString(read_bytes(bytes, 113));
        let start_time = read_u64_le(bytes, 129);
        let valid_config = bytes[137] != 0;
        let idle_skipping = bytes[138] != 0;
        let dual_core = bytes[139] != 0;
        let progressive_scan = bytes[140] != 0;
        let dsp_hle = bytes[141] != 0;
        let fast_disc = bytes[142] != 0;
        let cpu_core = bytes[143];
        let efb_access = bytes[144] != 0;
        let efb_copy = bytes[145] != 0;
        let efb_to_texture = bytes[146] != 0;
        let efb_copy_cache = bytes[147] != 0;
        let emulate_format_changes = bytes[148] != 0;
        let use_xfb = bytes[149] != 0;
        let use_real_xfb = bytes[150] != 0;
        let memory_cards = bytes[151];
        let memory_card_blank = bytes[152] != 0;
        let bongos_plugged = bytes[153];
        let sync_gpu = bytes[154] != 0;
        let netplay = bytes[155] != 0;
        let sysconf_pal60 = bytes[156] != 0;
        let reserved2 = ByteString(read_bytes(bytes, 157));
        let git_revision = ByteString(read_bytes(bytes, 209));
        let dsp_irom_hash = read_u32_le(bytes, 229);
        let dsp_coef_hash = read_u32_le(bytes, 233);
        let tick_count = read_u64_le(bytes, 237);
        let reserved3 = ByteString(read_bytes(bytes, 245));
        DtmHeader {
            game_id,
            wii_game,
            controllers,
            savestate,
            vi_count,
            input_count,
            lag_counter,
            reserved1,
            rerecord_count,
            author,
            video_backend,
            audio_emulator,
            md5,
            start_time,
            valid_config,
            idle_skipping,
            dual_core,
            progressive_scan,
            dsp_hle,
            fast_disc,
            cpu_core,
            efb_access,
            efb_copy,
            efb_to_texture,
            efb_copy_cache,
            emulate_format_changes,
            use_xfb,
            use_real_xfb,
            memory_cards,
            memory_card_blank,
            bongos_plugged,
            sync_gpu,
            netplay,
            sysconf_pal60,
            reserved2,
            second_disc,
            git_revision,
            dsp_irom_hash,
            dsp_coef_hash,
            tick_count,
            reserved3,
        }
    }

    /// The header in the binary form, magic signature excluded. Fails where a
    /// string does not fit in its field.
    pub fn write_to_dtm(&self) -> (r: Result<Vec<u8>, Dtm2txtError>)
        ensures
            match r {
                Ok(v) => header_fits(self@) && v@ == header_bytes(self@),
                Err(e) => !header_fits(self@) && e == Dtm2txtError::StringTooLong,
            },
    {
        let mut out = match self.write_part1() {
            Ok(v) => v,
            Err(e) => return Err(e),
        };
        let mut part2 = match self.write_part2() {
            Ok(v) => v,
            Err(e) => return Err(e),
        };
        let mut part3 = self.write_part3();
        let mut part4 = self.write_part4();
        let mut part5 = self.write_part5();
        let mut part6 = self.write_part6();
        let mut part7 = match self.write_part7() {
            Ok(v) => v,
            Err(e) => return Err(e),
        };
        out.append(&mut part2);
        out.append(&mut part3);
        out.append(&mut part4);
        out.append(&mut part5);
        out.append(&mut part6);
        out.append(&mut part7);
        Ok(out)
    }


    fn write_part1(&self) -> (r: Result<Vec<u8>, Dtm2txtError>)
        ensures
            r is Ok <==> fits(self@.game_id, 6),
            match r {
                Ok(v) => v@ == header_part1(self@),
                Err(e) => e == Dtm2txtError::StringTooLong,
            },
    {
        let mut out: Vec<u8> = Vec::new();
        let ghost h = self@;
        match write_str(&mut out, &self.game_id, 6) {
            Ok(()) => {},
            Err(e) => return Err(e),
        }
        assert(out@ =~= str_bytes(h.game_id, 6));
        out.push(self.wii_game as u8);
        out.push(self.controllers);
        out.push(self.savestate as u8);
        push_bytes(&mut out, u64_le_bytes(self.vi_count).as_slice());
        push_bytes(&mut out, u64_le_bytes(self.input_count).as_slice());
        push_bytes(&mut out, u64_le_bytes(self.lag_counter).as_slice());
        push_bytes(&mut out, u64_le_bytes(self.reserved1).as_slice());
        push_bytes(&mut out, u32_le_bytes(self.rerecord_count).as_slice());
        Ok(out)
    }

    fn write_part2(&self) -> (r: Result<Vec<u8>, Dtm2txtError>)
        ensures
            r is Ok <==> fits(self@.author, 32) && fits(self@.video_backend, 16),
            match r {
                Ok(v) => v@ == header_part2(self@),
                Err(e) => e == Dtm2txtError::StringTooLong,
            },
    {
        let mut out: Vec<u8> = Vec::new();
        let ghost h = self@;
        match write_str(&mut out, &self.author, 32) {
            Ok(()) => {},
            Err(e) => return Err(e),
        }
        assert(out@ =~= str_bytes(h.author, 32));
        match write_str(&mut out, &self.video_backend, 16) {
            Ok(()) => {},
            Err(e) => return Err(e),
        }
        push_bytes(&mut out, self.audio_emulator.0.as_slice());
        push_bytes(&mut out, self.md5.0.as_slice());
        push_bytes(&mut out, u64_le_bytes(self.start_time).as_slice());
        Ok(out)
    }

    fn write_part3(&self) -> (r: Vec<u8>)
        ensures
            r@ == header_part3(self@),
    {
        let mut out: Vec<u8> = Vec::new();
        let ghost h = self@;
        out.push(self.valid_config as u8);
        out.push(self.idle_skipping as u8);
        out.push(self.dual_core as u8);
        out.push(self.progressive_scan as u8);
        out.push(self.dsp_hle as u8);
        out
    }

    fn write_part4(&self) -> (r: Vec<u8>)
        ensures
            r@ == header_part4(self@),
    {
        let mut out: Vec<u8> = Vec::new();
        let ghost h = self@;
        out.push(self.fast_disc as u8);
        out.push(self.cpu_core);
        out.push(self.efb_access as u8);
        out.push(self.efb_copy as u8);
        out.push(self.efb_to_texture as u8);
        out
    }

    fn write_part5(&self) -> (r: Vec<u8>)
        ensures
            r@ == header_part5(self@),
    {
        let mut out: Vec<u8> = Vec::new();
        let ghost h = self@;
        out.push(self.efb_copy_cache as u8);
        out.push(self.emulate_format_changes as u8);
        out.push(self.use_xfb as u8);
        out.push(self.use_real_xfb as u8);
        out.push(self.memory_cards);
        out
    }

    fn write_part6(&self) -> (r: Vec<u8>)
        ensures
            r@ == header_part6(self@),
    {
        let mut out: Vec<u8> = Vec::new();
        let ghost h = self@;
        out.push(self.memory_card_blank as u8);
        out.push(self.bongos_plugged);
        out.push(self.sync_gpu as u8);
        out.push(self.netplay as u8);
        out.push(self.sysconf_pal60 as u8);
        out
    }

    fn write_part7(&self) -> (r: Result<Vec<u8>, Dtm2txtError>)
        ensures
            r is Ok <==> fits(self@.second_disc, 40),
            match r {
                Ok(v) => v@ == header_part7(self@),
                Err(e) => e == Dtm2txtError::StringTooLong,
            },
    {
        let mut out: Vec<u8> = Vec::new();
        let ghost h = self@;
        push_bytes(&mut out, self.reserved2.0.as_slice());
        assert(out@ =~= h.reserved2);
        match write_str(&mut out, &self.second_disc, 40) {
            Ok(()) => {},
            Err(e) => return Err(e),
        }
        push_bytes(&mut out, self.git_revision.0.as_slice());
        push_bytes(&mut out, u32_le_bytes(self.dsp_irom_hash).as_slice());
        push_bytes(&mut out, u32_le_bytes(self.dsp_coef_hash).as_slice());
        push_bytes(&mut out, u64_le_bytes(self.tick_count).as_slice());
        push_bytes(&mut out, self.reserved3.0.as_slice());
        Ok(out)
    }
}


impl Dtm {
    /// Decodes a whole movie from its binary form: the magic signature, the
    /// header, then as many 8-byte frame records as the header's input count
    /// announces. Bytes after the last announced frame are ignored.
    pub fn read(bytes: &[u8]) -> (r: Result<Dtm, Dtm2txtError>)
        ensures
            match r {
                Ok(d) => decode_binary_spec(bytes@) == Ok::<DtmModel, Dtm2txtError>(d@),
                Err(e) => decode_binary_spec(bytes@) == Err::<DtmModel, Dtm2txtError>(e),
            },
    {
        let header = match DtmHeader::read(bytes) {
            Ok(h) => h,
            Err(e) => return Err(e),
        };
        let count = header.input_count;
        let available = (bytes.len() - HEADER_LEN) / FRAME_LEN;
        assert(bytes@.len() < 256 + 8 * count <==> available < count) by (nonlinear_arith)
            requires
                available == (bytes@.len() - 256) / 8,
                bytes@.len() >= 256,
        ;
        if (available as u64) < count {
            return Err(Dtm2txtError::UnexpectedEof);
        }
        let len = bytes.len();
        let n = count as usize;
        let mut controller_data: Vec<ControllerFrame> = Vec::new();
        let mut i: usize = 0;
        while i < n
            invariant
                i <= n,
                n == count,
                n <= available,
                len == bytes@.len(),
                available == (bytes@.len() - 256) / 8,
                bytes@.len() >= 256,
                controller_data@ =~= Seq::new(i as nat, |k: int| frame_at(bytes@, 256 + 8 * k)),
            decreases n - i,
        {
            assert(256 + 8 * i + 8 <= bytes@.len()) by (nonlinear_arith)
                requires
                    i < available,
                    available == (bytes@.len() - 256) / 8,
                    bytes@.len() >= 256,
            ;
            controller_data.push(ControllerFrame::read(bytes, HEADER_LEN + FRAME_LEN * i));
            i = i + 1;
        }
        Ok(Dtm { header, controller_data })
    }

    /// Encodes the movie in its binary form: the magic signature, the header,
    /// then one 8-byte record per frame in order. Fails where a header string
    /// is longer than its field.
    pub fn write_to_dtm(&self) -> (r: Result<Vec<u8>, Dtm2txtError>)
        ensures
            match r {
                Ok(v) => encode_binary_spec(self@) == Ok::<Seq<u8>, Dtm2txtError>(v@),
                Err(e) => encode_binary_spec(self@) == Err::<Seq<u8>, Dtm2txtError>(e),
            },
    {
        let mut header = match self.header.write_to_dtm() {
            Ok(v) => v,
            Err(e) => return Err(e),
        };
        let mut out: Vec<u8> = Vec::new();
        out.push(0x44);
        out.push(0x54);
        out.push(0x4D);
        out.push(0x1A);
        out.append(&mut header);
        let ghost start = out@;
        assert(start == magic() + header_bytes(self.header@));
        let mut i: usize = 0;
        while i < self.controller_data.len()
            invariant
                i <= self.controller_data@.len(),
                out@ == start + frames_bytes(self.controller_data@.take(i as int)),
            decreases self.controller_data@.len() - i,
        {
            let ghost before = out@;
            self.controller_data[i].write_to_dtm(&mut out);
            let ghost fs = self.controller_data@.take(i + 1);
            assert(fs.drop_last() =~= self.controller_data@.take(i as int));
            assert(out@ =~= start + frames_bytes(fs));
            i = i + 1;
        }
        assert(self.controller_data@.take(i as int) =~= self.controller_data@);
        Ok(out)
    }
}

/// The byte fields of a header have their declared lengths, as those of every
/// header value do.
pub open spec fn header_wf(h: HeaderModel) -> bool {
    &&& h.audio_emulator.len() == 16
    &&& h.md5.len() == 16
    &&& h.reserved2.len() == 12
    &&& h.git_revision.len() == 20
    &&& h.reserved3.len() == 11
}

/// The conditions under which a movie survives a trip through the binary form:
/// no header string ends in NUL (the zero padding would swallow it) and the
/// input count is the number of frames (decoding reads exactly that many).
pub open spec fn binary_faithful(m: DtmModel) -> bool {
    &&& no_trailing_nul(m.header.game_id)
    &&& no_trailing_nul(m.header.author)
    &&& no_trailing_nul(m.header.video_backend)
    &&& no_trailing_nul(m.header.second_disc)
    &&& m.header.input_count == m.frames.len()
}

proof fn lemma_read_part1(h: HeaderModel, b: Seq<u8>)
    requires
        fits(h.game_id, 6),
        no_trailing_nul(h.game_id),
        b.len() >= 256,
        b.subrange(4, 49) == header_part1(h),
    ensures
        str_ok(b, 4, 6),
        header_at(b).game_id == h.game_id,
        header_at(b).wii_game == h.wii_game,
        header_at(b).controllers == h.controllers,
        header_at(b).savestate == h.savestate,
        header_at(b).vi_count == h.vi_count,
        header_at(b).input_count == h.input_count,
        header_at(b).lag_counter == h.lag_counter,
        header_at(b).reserved1 == h.reserved1,
        header_at(b).rerecord_count == h.rerecord_count,
{
    lemma_u64_bound();
    lemma_fixed_string_round_trip(h.game_id, 6);
    lemma_le_round_trip(h.vi_count as nat, 8);
    lemma_le_round_trip(h.input_count as nat, 8);
    lemma_le_round_trip(h.lag_counter as nat, 8);
    lemma_le_round_trip(h.reserved1 as nat, 8);
    lemma_le_round_trip(h.rerecord_count as nat, 4);
    let p = b.subrange(4, 49);
    assert(p.len() == 45);
    assert(p.subrange(0, 6) =~= str_bytes(h.game_id, 6));
    assert(b.subrange(4, 10) =~= p.subrange(0, 6));
    assert(b[10] == p[6]);
    assert(b[11] == p[7]);
    assert(b[12] == p[8]);
    assert(p.subrange(9, 17) =~= le_bytes(h.vi_count as nat, 8));
    assert(b.subrange(13, 21) =~= p.subrange(9, 17));
    assert(p.subrange(17, 25) =~= le_bytes(h.input_count as nat, 8));
    assert(b.subrange(21, 29) =~= p.subrange(17, 25));
    assert(p.subrange(25, 33) =~= le_bytes(h.lag_counter as nat, 8));
    assert(b.subrange(29, 37) =~= p.subrange(25, 33));
    assert(p.subrange(33, 41) =~= le_bytes(h.reserved1 as nat, 8));
    assert(b.subrange(37, 45) =~= p.subrange(33, 41));
    assert(p.subrange(41, 45) =~= le_bytes(h.rerecord_count as nat, 4));
    assert(b.subrange(45, 49) =~= p.subrange(41, 45));
}

proof fn lemma_read_part2(h: HeaderModel, b: Seq<u8>)
    requires
        header_wf(h),
        fits(h.author, 32),
        no_trailing_nul(h.author),
        fits(h.video_backend, 16),
        no_trailing_nul(h.video_backend),
        b.len() >= 256,
        b.subrange(49, 137) == header_part2(h),
    ensures
        str_ok(b, 49, 32),
        header_at(b).author == h.author,
        str_ok(b, 81, 16),
        header_at(b).video_backend == h.video_backend,
        header_at(b).audio_emulator == h.audio_emulator,
        header_at(b).md5 == h.md5,
        header_at(b).start_time == h.start_time,
{
    lemma_u64_bound();
    lemma_fixed_string_round_trip(h.author, 32);
    lemma_fixed_string_round_trip(h.video_backend, 16);
    lemma_le_round_trip(h.start_time as nat, 8);
    let p = b.subrange(49, 137);
    assert(p.len() == 88);
    assert(p.subrange(0, 32) =~= str_bytes(h.author, 32));
    assert(b.subrange(49, 81) =~= p.subrange(0, 32));
    assert(p.subrange(32, 48) =~= str_bytes(h.video_backend, 16));
    assert(b.subrange(81, 97) =~= p.subrange(32, 48));
    assert(p.subrange(48, 64) =~= h.audio_emulator);
    assert(b.subrange(97, 113) =~= p.subrange(48, 64));
    assert(p.subrange(64, 80) =~= h.md5);
    assert(b.subrange(113, 129) =~= p.subrange(64, 80));
    assert(p.subrange(80, 88) =~= le_bytes(h.start_time as nat, 8));
    assert(b.subrange(129, 137) =~= p.subrange(80, 88));
}

proof fn lemma_read_part3(h: HeaderModel, b: Seq<u8>)
    requires
        b.len() >= 256,
        b.subrange(137, 142) == header_part3(h),
    ensures
        header_at(b).valid_config == h.valid_config,
        header_at(b).idle_skipping == h.idle_skipping,
        header_at(b).dual_core == h.dual_core,
        header_at(b).progressive_scan == h.progressive_scan,
        header_at(b).dsp_hle == h.dsp_hle,
{
    let p = b.subrange(137, 142);
    assert(p.len() == 5);
    assert(b[137] == p[0]);
    assert(b[138] == p[1]);
    assert(b[139] == p[2]);
    assert(b[140] == p[3]);
    assert(b[141] == p[4]);
}

proof fn lemma_read_part4(h: HeaderModel, b: Seq<u8>)
    requires
        b.len() >= 256,
        b.subrange(142, 147) == header_part4(h),
    ensures
        header_at(b).fast_disc == h.fast_disc,
        header_at(b).cpu_core == h.cpu_core,
        header_at(b).efb_access == h.efb_access,
        header_at(b).efb_copy == h.efb_copy,
        header_at(b).efb_to_texture == h.efb_to_texture,
{
    let p = b.subrange(142, 147);
    assert(p.len() == 5);
    assert(b[142] == p[0]);
    assert(b[143] == p[1]);
    assert(b[144] == p[2]);
    assert(b[145] == p[3]);
    assert(b[146] == p[4]);
}

proof fn lemma_read_part5(h: HeaderModel, b: Seq<u8>)
    requires
        b.len() >= 256,
        b.subrange(147, 152) == header_part5(h),
    ensures
        header_at(b).efb_copy_cache == h.efb_copy_cache,
        header_at(b).emulate_format_changes == h.emulate_format_changes,
        header_at(b).use_xfb == h.use_xfb,
        header_at(b).use_real_xfb == h.use_real_xfb,
        header_at(b).memory_cards == h.memory_cards,
{
    let p = b.subrange(147, 152);
    assert(p.len() == 5);
    assert(b[147] == p[0]);
    assert(b[148] == p[1]);
    assert(b[149] == p[2]);
    assert(b[150] == p[3]);
    assert(b[151] == p[4]);
}

proof fn lemma_read_part6(h: HeaderModel, b: Seq<u8>)
    requires
        b.len() >= 256,
        b.subrange(152, 157) == header_part6(h),
    ensures
        header_at(b).memory_card_blank == h.memory_card_blank,
        header_at(b).bongos_plugged == h.bongos_plugged,
        header_at(b).sync_gpu == h.sync_gpu,
        header_at(b).netplay == h.netplay,
        header_at(b).sysconf_pal60 == h.sysconf_pal60,
{
    let p = b.subrange(152, 157);
    assert(p.len() == 5);
    assert(b[152] == p[0]);
    assert(b[153] == p[1]);
    assert(b[154] == p[2]);
    assert(b[155] == p[3]);
    assert(b[156] == p[4]);
}

proof fn lemma_read_part7(h: HeaderModel, b: Seq<u8>)
    requires
        header_wf(h),
        fits(h.second_disc, 40),
        no_trailing_nul(h.second_disc),
        b.len() >= 256,
        b.subrange(157, 256) == header_part7(h),
    ensures
        header_at(b).reserved2 == h.reserved2,
        str_ok(b, 169, 40),
        header_at(b).second_disc == h.second_disc,
        header_at(b).git_revision == h.git_revision,
        header_at(b).dsp_irom_hash == h.dsp_irom_hash,
        header_at(b).dsp_coef_hash == h.dsp_coef_hash,
        header_at(b).tick_count == h.tick_count,
        header_at(b).reserved3 == h.reserved3,
{
    lemma_u64_bound();
    lemma_fixed_string_round_trip(h.second_disc, 40);
    lemma_le_round_trip(h.dsp_irom_hash as nat, 4);
    lemma_le_round_trip(h.dsp_coef_hash as nat, 4);
    lemma_le_round_trip(h.tick_count as nat, 8);
    let p = b.subrange(157, 256);
    assert(p.len() == 99);
    assert(p.subrange(0, 12) =~= h.reserved2);
    assert(b.subrange(157, 169) =~= p.subrange(0, 12));
    assert(p.subrange(12, 52) =~= str_bytes(h.second_disc, 40));
    assert(b.subrange(169, 209) =~= p.subrange(12, 52));
    assert(p.subrange(52, 72) =~= h.git_revision);
    assert(b.subrange(209, 229) =~= p.subrange(52, 72));
    assert(p.subrange(72, 76) =~= le_bytes(h.dsp_irom_hash as nat, 4));
    assert(b.subrange(229, 233) =~= p.subrange(72, 76));
    assert(p.subrange(76, 80) =~= le_bytes(h.dsp_coef_hash as nat, 4));
    assert(b.subrange(233, 237) =~= p.subrange(76, 80));
    assert(p.subrange(80, 88) =~= le_bytes(h.tick_count as nat, 8));
    assert(b.subrange(237, 245) =~= p.subrange(80, 88));
    assert(p.subrange(88, 99) =~= h.reserved3);
    assert(b.subrange(245, 256) =~= p.subrange(88, 99));
}

/// Decoding the bytes that encoding a movie produced gives that movie back,
/// field for field and frame for frame.
pub proof fn lemma_decode_of_encoded(m: DtmModel, b: Seq<u8>)
    requires
        header_wf(m.header),
        encode_binary_spec(m) == Ok::<Seq<u8>, Dtm2txtError>(b),
        binary_faithful(m),
    ensures
        decode_binary_spec(b) == Ok::<DtmModel, Dtm2txtError>(m),
{
    let h = m.header;
    let fs = m.frames;
    lemma_header_decodes(m, b);
    lemma_binary_layout(m, b);
    lemma_frames_at(fs, b);
}

proof fn lemma_header_decodes(m: DtmModel, b: Seq<u8>)
    requires
        header_wf(m.header),
        header_fits(m.header),
        b == binary_bytes(m),
        binary_faithful(m),
    ensures
        header_error(b) is None,
        header_at(b) == m.header,
        b.len() == 256 + 8 * m.frames.len(),
{
    let h = m.header;
    lemma_binary_layout(m, b);
    lemma_read_part1(h, b);
    lemma_read_part2(h, b);
    lemma_read_part3(h, b);
    lemma_read_part4(h, b);
    lemma_read_part5(h, b);
    lemma_read_part6(h, b);
    lemma_read_part7(h, b);
    assert(header_error(b) is None);
    assert(header_at(b) == h);
}

proof fn lemma_cat(x: Seq<u8>, y: Seq<u8>)
    ensures
        (x + y).subrange(0, x.len() as int) == x,
        (x + y).subrange(x.len() as int, (x.len() + y.len()) as int) == y,
{
    assert((x + y).subrange(0, x.len() as int) =~= x);
    assert((x + y).subrange(x.len() as int, (x.len() + y.len()) as int) =~= y);
}

proof fn lemma_sub_sub(s: Seq<u8>, i: int, j: int, k: int, l: int)
    requires
        0 <= i <= j <= s.len(),
        0 <= k <= l <= j - i,
    ensures
        s.subrange(i, j).subrange(k, l) == s.subrange(i + k, i + l),
{
    assert(s.subrange(i, j).subrange(k, l) =~= s.subrange(i + k, i + l));
}

#[verifier::rlimit(30)]
proof fn lemma_binary_layout(m: DtmModel, b: Seq<u8>)
    requires
        header_wf(m.header),
        header_fits(m.header),
        b == binary_bytes(m),
    ensures
        b.len() == 256 + 8 * m.frames.len(),
        b.subrange(0, 4) == magic(),
        b.subrange(4, 49) == header_part1(m.header),
        b.subrange(49, 137) == header_part2(m.header),
        b.subrange(137, 142) == header_part3(m.header),
        b.subrange(142, 147) == header_part4(m.header),
        b.subrange(147, 152) == header_part5(m.header),
        b.subrange(152, 157) == header_part6(m.header),
        b.subrange(157, 256) == header_part7(m.header),
        b.subrange(256, b.len() as int) == frames_bytes(m.frames),
{
    let h = m.header;
    lemma_u64_bound();
    lemma_str_bytes_len(h.game_id, 6);
    lemma_str_bytes_len(h.author, 32);
    lemma_str_bytes_len(h.video_backend, 16);
    lemma_str_bytes_len(h.second_disc, 40);
    lemma_le_round_trip(h.vi_count as nat, 8);
    lemma_le_round_trip(h.input_count as nat, 8);
    lemma_le_round_trip(h.lag_counter as nat, 8);
    lemma_le_round_trip(h.reserved1 as nat, 8);
    lemma_le_round_trip(h.rerecord_count as nat, 4);
    lemma_le_round_trip(h.start_time as nat, 8);
    lemma_le_round_trip(h.dsp_irom_hash as nat, 4);
    lemma_le_round_trip(h.dsp_coef_hash as nat, 4);
    lemma_le_round_trip(h.tick_count as nat, 8);
    lemma_frames_len(m.frames);
    let q1 = header_part1(h);
    let q2 = q1 + header_part2(h);
    let q3 = q2 + header_part3(h);
    let q4 = q3 + header_part4(h);
    let q5 = q4 + header_part5(h);
    let q6 = q5 + header_part6(h);
    let q7 = q6 + header_part7(h);
    assert(q1.len() == 45);
    assert(q2.len() == 133);
    assert(q3.len() == 138);
    assert(q4.len() == 143);
    assert(q5.len() == 148);
    assert(q6.len() == 153);
    assert(q7.len() == 252);
    let mh = magic() + q7;
    lemma_cat(mh, frames_bytes(m.frames));
    lemma_cat(magic(), q7);
    lemma_sub_sub(b, 0, 256, 4, 256);
    lemma_sub_sub(b, 0, 256, 0, 4);
    lemma_cat(q6, header_part7(h));
    lemma_cat(q5, header_part6(h));
    lemma_cat(q4, header_part5(h));
    lemma_cat(q3, header_part4(h));
    lemma_cat(q2, header_part3(h));
    lemma_cat(q1, header_part2(h));
    lemma_sub_sub(b, 4, 256, 153, 252);
    lemma_sub_sub(b, 4, 256, 0, 153);
    lemma_sub_sub(b, 4, 157, 148, 153);
    lemma_sub_sub(b, 4, 157, 0, 148);
    lemma_sub_sub(b, 4, 152, 143, 148);
    lemma_sub_sub(b, 4, 152, 0, 143);
    lemma_sub_sub(b, 4, 147, 138, 143);
    lemma_sub_sub(b, 4, 147, 0, 138);
    lemma_sub_sub(b, 4, 142, 133, 138);
    lemma_sub_sub(b, 4, 142, 0, 133);
    lemma_sub_sub(b, 4, 137, 45, 133);
    lemma_sub_sub(b, 4, 137, 0, 45);
}

proof fn lemma_frames_at(fs: Seq<ControllerFrame>, b: Seq<u8>)
    requires
        b.len() == 256 + 8 * fs.len(),
        b.subrange(256, b.len() as int) == frames_bytes(fs),
    ensures
        Seq::new(fs.len(), |i: int| frame_at(b, 256 + 8 * i)) == fs,
{
    let frames = Seq::new(fs.len(), |i: int| frame_at(b, 256 + 8 * i));
    assert forall|i: int| 0 <= i < fs.len() implies frames[i] == fs[i] by {
        lemma_frame_in_frames(fs, i);
        let records = b.subrange(256, b.len() as int);
        assert(b.subrange(256 + 8 * i, 256 + 8 * i + 8) =~= records.subrange(8 * i, 8 * i + 8));
        lemma_frame_round_trip(fs[i], b, 256 + 8 * i);
    }
    assert(frames =~= fs);
}

/// Every movie whose header strings fit in their fields encodes to the binary
/// form, and decoding the result gives the movie back.
pub proof fn lemma_binary_round_trip(m: DtmModel)
    requires
        header_wf(m.header),
        header_fits(m.header),
        binary_faithful(m),
    ensures
        encode_binary_spec(m) is Ok,
        decode_binary_spec(encode_binary_spec(m)->Ok_0) == Ok::<DtmModel, Dtm2txtError>(m),
{
    lemma_decode_of_encoded(m, binary_bytes(m));
}

} // verus!

