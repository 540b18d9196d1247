//! Construction of the module-list stream: per-image record building,
//! main-executable selection and ordering, and the serialized record
//! layout.

use vstd::prelude::*;
use vstd::assert_seqs_equal;
use vstd::bytes::{
    lemma_auto_spec_u32_to_from_le_bytes, lemma_auto_spec_u64_to_from_le_bytes,
    spec_u32_to_le_bytes, spec_u64_to_le_bytes,
};
use vstd::slice::slice_index_get;
use crate::bytes::{read_bytes_at, u32_at, u64_at};
use crate::dump_buf::DumpBuf;
use crate::load_commands::{
    dylib_version, scan_dylib_id, scan_load_commands, scan_text_segment, scan_uuid, seg_file_off,
    seg_file_size, seg_vm_addr, seg_vm_size, uuid_bytes, LoadCommands,
};
use crate::task_dumper::{ImageInfo, TaskDumpError};

verus! {

/// Stream tag of the module-list stream in a dump directory.
pub const MODULE_LIST_STREAM: u32 = 4;

/// Signature word of a fixed version-information block.
pub const VS_FFI_SIGNATURE: u32 = 0xFEEF04BD;

/// Structure-version word of a fixed version-information block.
pub const VS_FFI_STRUCVERSION: u32 = 0x00010000;

/// Signature of a PDB-70-style debug record.
pub const CV_SIGNATURE_PDB70: u32 = 0x53445352;

/// Byte size of one serialized module record.
pub const MODULE_RECORD_SIZE: usize = 108;

/// Byte size of the fixed part of a debug record: its signature, the
/// 16 unique-id bytes, and the age word.
pub const CV_INFO_PDB70_SIZE: usize = 24;

/// One module record of the module-list stream. The two reference
/// pairs locate the module's variable-length payload elsewhere in the
/// dump buffer: the length-prefixed path record and the debug record.
#[derive(Clone, Copy, Debug, PartialEq, Eq, Structural)]
pub struct ModuleRecord {
    pub base_of_image: u64,
    pub size_of_image: u32,
    pub module_name_rva: u32,
    pub version_signature: u32,
    pub version_struct_version: u32,
    pub version_file_hi: u32,
    pub version_file_lo: u32,
    pub cv_record_size: u32,
    pub cv_record_rva: u32,
}

/// A directory entry locating one stream within the dump buffer.
#[derive(Clone, Copy, Debug, PartialEq, Eq, Structural)]
pub struct DirectoryEntry {
    pub stream_type: u32,
    pub rva: u32,
    pub data_size: u32,
}

/// Repacks a dylib's version word, laid out major(16):minor(8):
/// bugfix(8), into the record format's pair: the major part alone in
/// the high word, and minor and bugfix in the upper and lower
/// half-words of the low word.
pub fn pack_version(version: u32) -> (r: (u32, u32))
    ensures
        r.0 == version >> 16,
        r.1 == ((version & 0xff00) << 8) | (version & 0xff),
{
    (version >> 16, ((version & 0xff00) << 8) | (version & 0xff))
}

/// The placeholder display name of a module whose path is empty.
pub open spec fn unknown_name() -> Seq<u8> {
    seq![60u8, 85u8, 110u8, 107u8, 110u8, 111u8, 119u8, 110u8, 62u8]
}

/// `path` holds a path separator.
pub open spec fn has_sep(path: Seq<u8>) -> bool {
    exists|i: int| 0 <= i < path.len() && path[i] == 47
}

/// Index of the last path separator in `path`.
pub open spec fn last_sep(path: Seq<u8>) -> int {
    choose|i: int|
        0 <= i < path.len() && path[i] == 47 && (forall|j: int|
            i < j < path.len() ==> path[j] != 47)
}

/// The display name a module's path yields: the part after the last
/// separator, the whole path when it has none, and a placeholder when
/// it is empty.
pub open spec fn spec_display_name(path: Seq<u8>) -> Seq<u8> {
    if path.len() == 0 {
        unknown_name()
    } else if has_sep(path) {
        path.subrange(last_sep(path) + 1, path.len() as int)
    } else {
        path
    }
}

/// Computes a module's display name from its path bytes.
pub fn display_name(path: &Vec<u8>) -> (r: Vec<u8>)
    ensures
        r@ == spec_display_name(path@),
{
    let n = path.len();
    if n == 0 {
        let mut v: Vec<u8> = Vec::new();
        v.push(60);
        v.push(85);
        v.push(110);
        v.push(107);
        v.push(110);
        v.push(111);
        v.push(119);
        v.push(110);
        v.push(62);
        proof {
            assert_seqs_equal!(v@ == unknown_name());
        }
        return v;
    }
    let mut i: usize = n;
    while i > 0
        invariant
            i <= n,
            n == path@.len(),
            forall|j: int| i <= j < n ==> path@[j] != 47,
        decreases i,
    {
        if path[i - 1] == 47 {
            proof {
                let w = i - 1;
                assert(0 <= w < path@.len() && path@[w] == 47 && (forall|j: int|
                    w < j < path@.len() ==> path@[j] != 47));
                let l = last_sep(path@);
                assert(0 <= l < path@.len() && path@[l] == 47 && (forall|j: int|
                    l < j < path@.len() ==> path@[j] != 47));
                if l < w {
                    assert(path@[w] != 47);
                }
                if l > w {
                    assert(path@[l] != 47);
                }
            }
            return read_bytes_at(path.as_slice(), i, n - i);
        }
        i = i - 1;
    }
    proof {
        assert(!has_sep(path@));
    }
    let r = read_bytes_at(path.as_slice(), 0, n);
    proof {
        assert_seqs_equal!(r@ == path@);
    }
    r
}

/// An image's load-command stream yields a module record: it holds a
/// text segment and a unique id.
pub open spec fn module_ok(b: Seq<u8>, count: nat) -> bool {
    scan_text_segment(b, count, 0) is Some && scan_uuid(b, count, 0) is Some
}

/// The record's base address: the image's load address when the text
/// segment contains the image header (file offset zero, file size not
/// zero), else the segment's link-time address taken as is.
pub open spec fn spec_base_of_image(load_address: u64, b: Seq<u8>, soff: int) -> u64 {
    if seg_file_off(b, soff) == 0 && seg_file_size(b, soff) != 0 {
        load_address
    } else {
        seg_vm_addr(b, soff)
    }
}

/// The number of payload bytes a surviving image appends to the dump
/// buffer: its length-prefixed path record, then the fixed debug
/// record, the display name, and one terminating zero byte.
pub open spec fn module_payload_len(path: Seq<u8>) -> int {
    4 + path.len() as int + 24 + spec_display_name(path).len() as int + 1
}

/// The payload bytes a surviving image appends: the length-prefixed
/// path record, then the debug record (its signature, the 16 unique-id
/// bytes, the age word), the display name, and one zero byte.
pub open spec fn module_payload_bytes(b: Seq<u8>, cnt: nat, path: Seq<u8>) -> Seq<u8> {
    spec_u32_to_le_bytes(path.len() as u32) + path + spec_u32_to_le_bytes(CV_SIGNATURE_PDB70)
        + uuid_bytes(b, scan_uuid(b, cnt, 0)->0) + spec_u32_to_le_bytes(0u32)
        + spec_display_name(path) + seq![0u8]
}

/// Builds one image's module record from data already read out of the
/// task: the image descriptor, its load-command stream, and its
/// resolved file path bytes (empty when the path pointer was null or
/// its read failed). Appends the record's variable-length payload to
/// `buf`; a failed image appends nothing. The returned flag marks the
/// main-executable candidate: the image whose commands carry no
/// self-identification.
pub fn read_module(image: &ImageInfo, lc: &LoadCommands, file_path: &Vec<u8>, buf: &mut DumpBuf) -> (r:
    Result<(ModuleRecord, bool), TaskDumpError>)
    requires
        module_ok(lc.buffer@, lc.count as nat) ==> old(buf)@.len() + module_payload_len(
            file_path@,
        ) <= u32::MAX,
    ensures
        match r {
            Ok(p) => {
                let b = lc.buffer@;
                let cnt = lc.count as nat;
                let soff = scan_text_segment(b, cnt, 0)->0;
                let uoff = scan_uuid(b, cnt, 0)->0;
                let dn = spec_display_name(file_path@);
                &&& module_ok(b, cnt)
                &&& p.1 == (scan_dylib_id(b, cnt, 0) is None)
                &&& p.0.base_of_image == spec_base_of_image(image.load_address, b, soff)
                &&& p.0.size_of_image == seg_vm_size(b, soff) as u32
                &&& p.0.module_name_rva == old(buf)@.len()
                &&& (match scan_dylib_id(b, cnt, 0) {
                    Some(doff) => {
                        &&& p.0.version_signature == VS_FFI_SIGNATURE
                        &&& p.0.version_struct_version == VS_FFI_STRUCVERSION
                        &&& p.0.version_file_hi == dylib_version(b, doff) >> 16
                        &&& p.0.version_file_lo == ((dylib_version(b, doff) & 0xff00) << 8) | (
                        dylib_version(b, doff) & 0xff)
                    },
                    None => {
                        &&& p.0.version_signature == 0
                        &&& p.0.version_struct_version == 0
                        &&& p.0.version_file_hi == 0
                        &&& p.0.version_file_lo == 0
                    },
                })
                &&& p.0.cv_record_rva == old(buf)@.len() + 4 + file_path@.len()
                &&& p.0.cv_record_size == 24 + dn.len() + 1
                &&& final(buf)@ == old(buf)@ + module_payload_bytes(b, cnt, file_path@)
                &&& final(buf)@.len() == old(buf)@.len() + module_payload_len(file_path@)
            },
            Err(e) => {
                &&& e == TaskDumpError::MissingRequiredField
                &&& !module_ok(lc.buffer@, lc.count as nat)
                &&& final(buf)@ == old(buf)@
            },
        },
{
    proof {
        lemma_auto_spec_u32_to_from_le_bytes();
    }
    let scan = scan_load_commands(lc);
    let seg = match scan.segment {
        Some(s) => s,
        None => {
            return Err(TaskDumpError::MissingRequiredField);
        },
    };
    let uuid = match scan.uuid {
        Some(u) => u,
        None => {
            return Err(TaskDumpError::MissingRequiredField);
        },
    };
    assert(module_ok(lc.buffer@, lc.count as nat));
    let base_of_image = if seg.file_off == 0 && seg.file_size != 0 {
        image.load_address
    } else {
        seg.vm_addr
    };
    let size_of_image = #[verifier::truncate] (seg.vm_size as u32);
    let (version_signature, version_struct_version, version_file_hi, version_file_lo) =
        match scan.version {
        Some(v) => {
            let p = pack_version(v);
            (VS_FFI_SIGNATURE, VS_FFI_STRUCVERSION, p.0, p.1)
        },
        None => (0, 0, 0, 0),
    };
    let module_name_rva = buf.write_u32(file_path.len() as u32);
    buf.write_bytes(file_path);
    let cv_record_rva = buf.write_u32(CV_SIGNATURE_PDB70);
    buf.write_bytes(&uuid);
    buf.write_u32(0);
    let name = display_name(file_path);
    buf.write_bytes(&name);
    buf.write_u8(0);
    let cv_record_size = CV_INFO_PDB70_SIZE as u32 + name.len() as u32 + 1;
    let m = ModuleRecord {
        base_of_image,
        size_of_image,
        module_name_rva,
        version_signature,
        version_struct_version,
        version_file_hi,
        version_file_lo,
        cv_record_size,
        cv_record_rva,
    };
    proof {
        assert(final(buf)@ =~= old(buf)@ + module_payload_bytes(
            lc.buffer@,
            lc.count as nat,
            file_path@,
        ));
    }
    Ok((m, scan.version.is_none()))
}

/// One image's worth of data fetched from the task: the descriptor,
/// its load-command stream when reading one succeeded, and its
/// resolved file path bytes (empty when the path pointer was null or
/// the path read failed).
pub struct ModuleInput {
    pub image: ImageInfo,
    pub load_commands: Option<LoadCommands>,
    pub file_path: Vec<u8>,
}

/// `inp` yields a module record: its load commands were read and they
/// hold a text segment and a unique id.
pub open spec fn input_ok(inp: ModuleInput) -> bool {
    match inp.load_commands {
        Some(lc) => module_ok(lc.buffer@, lc.count as nat),
        None => false,
    }
}

/// `inp` is the main-executable candidate: it yields a record and its
/// commands carry no self-identification.
pub open spec fn input_is_main(inp: ModuleInput) -> bool {
    input_ok(inp) && (match inp.load_commands {
        Some(lc) => scan_dylib_id(lc.buffer@, lc.count as nat, 0) is None,
        None => false,
    })
}

/// The payload bytes `inp` appends to the buffer: its record's
/// payload when it survives, nothing when it is omitted.
pub open spec fn input_payload_len(inp: ModuleInput) -> int {
    if input_ok(inp) {
        module_payload_len(inp.file_path@)
    } else {
        0
    }
}

/// The module record a surviving input yields when its payload lands
/// at buffer position `pos`.
pub open spec fn record_at(inp: ModuleInput, pos: int) -> ModuleRecord {
    let lc = inp.load_commands->0;
    let b = lc.buffer@;
    let cnt = lc.count as nat;
    let soff = scan_text_segment(b, cnt, 0)->0;
    let dn = spec_display_name(inp.file_path@);
    ModuleRecord {
        base_of_image: spec_base_of_image(inp.image.load_address, b, soff),
        size_of_image: seg_vm_size(b, soff) as u32,
        module_name_rva: pos as u32,
        version_signature: if scan_dylib_id(b, cnt, 0) is Some {
            VS_FFI_SIGNATURE
        } else {
            0
        },
        version_struct_version: if scan_dylib_id(b, cnt, 0) is Some {
            VS_FFI_STRUCVERSION
        } else {
            0
        },
        version_file_hi: match scan_dylib_id(b, cnt, 0) {
            Some(doff) => dylib_version(b, doff) >> 16,
            None => 0,
        },
        version_file_lo: match scan_dylib_id(b, cnt, 0) {
            Some(doff) => ((dylib_version(b, doff) & 0xff00) << 8) | (dylib_version(b, doff)
                & 0xff),
            None => 0,
        },
        cv_record_size: (24 + spec_display_name(inp.file_path@).len() + 1) as u32,
        cv_record_rva: (pos + 4 + inp.file_path@.len()) as u32,
    }
}

/// The outcome of walking `inputs` in order against a buffer whose
/// free space starts at `base`: the surviving records in their final
/// order (each main-executable candidate moved to the front, every
/// other record in input order) and the buffer position after all
/// payloads.
pub open spec fn emit(inputs: Seq<ModuleInput>, base: int) -> (Seq<ModuleRecord>, int)
    decreases inputs.len(),
{
    if inputs.len() == 0 {
        (Seq::<ModuleRecord>::empty(), base)
    } else {
        let prev = emit(inputs.drop_last(), base);
        let inp = inputs.last();
        if input_ok(inp) {
            let rec = record_at(inp, prev.1);
            if input_is_main(inp) {
                (seq![rec] + prev.0, prev.1 + module_payload_len(inp.file_path@))
            } else {
                (prev.0.push(rec), prev.1 + module_payload_len(inp.file_path@))
            }
        } else {
            prev
        }
    }
}

/// Some input is the main-executable candidate.
pub open spec fn has_main(inputs: Seq<ModuleInput>) -> bool {
    exists|i: int| 0 <= i < inputs.len() && input_is_main(#[trigger] inputs[i])
}

/// A walk yields at most one record per input and only moves the
/// buffer position forward.
pub proof fn lemma_emit_shape(inputs: Seq<ModuleInput>, base: int)
    ensures
        emit(inputs, base).0.len() <= inputs.len(),
        base <= emit(inputs, base).1,
    decreases inputs.len(),
{
    if inputs.len() > 0 {
        lemma_emit_shape(inputs.drop_last(), base);
    }
}

/// Walking any prefix of the inputs never passes the buffer position
/// the whole walk reaches.
pub proof fn lemma_emit_prefix_bound(inputs: Seq<ModuleInput>, base: int, i: int)
    requires
        0 <= i <= inputs.len(),
    ensures
        emit(inputs.subrange(0, i), base).1 <= emit(inputs, base).1,
    decreases inputs.len() - i,
{
    if i < inputs.len() {
        lemma_emit_prefix_bound(inputs, base, i + 1);
        assert(inputs.subrange(0, i + 1).drop_last() =~= inputs.subrange(0, i));
        assert(inputs.subrange(0, i + 1).last() == inputs[i]);
    } else {
        assert(inputs.subrange(0, i) =~= inputs);
    }
}

/// The records of the main-executable inputs, latest first: each
/// later one was moved in front of the earlier ones.
pub open spec fn main_recs(inputs: Seq<ModuleInput>, base: int) -> Seq<ModuleRecord>
    decreases inputs.len(),
{
    if inputs.len() == 0 {
        Seq::<ModuleRecord>::empty()
    } else {
        let prev = main_recs(inputs.drop_last(), base);
        let inp = inputs.last();
        if input_is_main(inp) {
            seq![record_at(inp, emit(inputs.drop_last(), base).1)] + prev
        } else {
            prev
        }
    }
}

/// The records of the surviving non-main inputs, in input order.
pub open spec fn other_recs(inputs: Seq<ModuleInput>, base: int) -> Seq<ModuleRecord>
    decreases inputs.len(),
{
    if inputs.len() == 0 {
        Seq::<ModuleRecord>::empty()
    } else {
        let prev = other_recs(inputs.drop_last(), base);
        let inp = inputs.last();
        if input_ok(inp) && !input_is_main(inp) {
            prev.push(record_at(inp, emit(inputs.drop_last(), base).1))
        } else {
            prev
        }
    }
}

/// A finished walk lists every main-executable record before every
/// other record, and the others in input order.
pub proof fn lemma_emit_decomposition(inputs: Seq<ModuleInput>, base: int)
    ensures
        emit(inputs, base).0 == main_recs(inputs, base) + other_recs(inputs, base),
    decreases inputs.len(),
{
    if inputs.len() == 0 {
        assert(emit(inputs, base).0 =~= main_recs(inputs, base) + other_recs(inputs, base));
    } else {
        lemma_emit_decomposition(inputs.drop_last(), base);
        let s = inputs.drop_last();
        let inp = inputs.last();
        let m = main_recs(s, base);
        let o = other_recs(s, base);
        let rec = record_at(inp, emit(s, base).1);
        if input_is_main(inp) {
            assert(seq![rec] + (m + o) =~= (seq![rec] + m) + o);
        } else if input_ok(inp) {
            assert((m + o).push(rec) =~= m + o.push(rec));
        }
    }
}

/// The base address an input's record carries, wherever in the buffer
/// its payload lands.
pub open spec fn input_base(inp: ModuleInput) -> u64 {
    let lc = inp.load_commands->0;
    spec_base_of_image(
        inp.image.load_address,
        lc.buffer@,
        scan_text_segment(lc.buffer@, lc.count as nat, 0)->0,
    )
}

/// When the inputs ascend strictly by load address and each surviving
/// image's record base is its load address (as it is whenever the text
/// segment maps the image header), the non-main records of the walk
/// ascend strictly by base address. With `lemma_emit_decomposition`
/// this is the stream's promised order: main-executable records first,
/// all others ascending by base.
pub proof fn lemma_other_records_ascend(inputs: Seq<ModuleInput>, base: int)
    requires
        forall|i: int, j: int|
            0 <= i < j < inputs.len() ==> (#[trigger] inputs[i]).image.load_address < (
            #[trigger] inputs[j]).image.load_address,
        forall|i: int|
            0 <= i < inputs.len() && input_ok(#[trigger] inputs[i]) ==> input_base(inputs[i])
                == inputs[i].image.load_address,
    ensures
        forall|p: int, q: int|
            0 <= p < q < other_recs(inputs, base).len() ==> (#[trigger] other_recs(
                inputs,
                base,
            )[p]).base_of_image < (#[trigger] other_recs(inputs, base)[q]).base_of_image,
        forall|t: int|
            0 <= t < other_recs(inputs, base).len() ==> exists|i: int|
                0 <= i < inputs.len() && (#[trigger] other_recs(inputs, base)[t]).base_of_image
                    == inputs[i].image.load_address,
    decreases inputs.len(),
{
    if inputs.len() > 0 {
        let s = inputs.drop_last();
        assert(forall|i: int, j: int|
            0 <= i < j < s.len() ==> (#[trigger] s[i]).image.load_address < (
            #[trigger] s[j]).image.load_address);
        assert(forall|i: int|
            0 <= i < s.len() && input_ok(#[trigger] s[i]) ==> input_base(s[i])
                == s[i].image.load_address);
        lemma_other_records_ascend(s, base);
        let inp = inputs.last();
        let o = other_recs(s, base);
        if input_ok(inp) && !input_is_main(inp) {
            let rec = record_at(inp, emit(s, base).1);
            assert(rec.base_of_image == inp.image.load_address);
            assert forall|p: int| 0 <= p < o.len() implies (#[trigger] o[p]).base_of_image
                < rec.base_of_image by {
                let i = choose|i: int|
                    0 <= i < s.len() && o[p].base_of_image == s[i].image.load_address;
                assert(inputs[i].image.load_address < inp.image.load_address);
            }
        }
    }
}

/// The payload bytes a whole walk appends: each surviving input's
/// payload, in input order.
pub open spec fn emit_payload(inputs: Seq<ModuleInput>) -> Seq<u8>
    decreases inputs.len(),
{
    if inputs.len() == 0 {
        Seq::<u8>::empty()
    } else {
        let prev = emit_payload(inputs.drop_last());
        let inp = inputs.last();
        if input_ok(inp) {
            let lc = inp.load_commands->0;
            prev + module_payload_bytes(lc.buffer@, lc.count as nat, inp.file_path@)
        } else {
            prev
        }
    }
}

/// The walk's final buffer position is its starting position plus the
/// payload it appends.
pub proof fn lemma_emit_payload_len(inputs: Seq<ModuleInput>, base: int)
    ensures
        emit(inputs, base).1 == base + emit_payload(inputs).len(),
    decreases inputs.len(),
{
    lemma_auto_spec_u32_to_from_le_bytes();
    if inputs.len() > 0 {
        lemma_emit_payload_len(inputs.drop_last(), base);
        let inp = inputs.last();
        if input_ok(inp) {
            let lc = inp.load_commands->0;
            crate::load_commands::lemma_scan_uuid_found(lc.buffer@, lc.count as nat, 0);
        }
    }
}

/// Walks the per-image inputs in order and builds their records,
/// appending each survivor's payload to `buf`. A per-image failure
/// omits that image only; it never aborts the walk. Each
/// main-executable candidate's record is put first; every other record
/// keeps input order. Fails, after the whole walk, exactly when no
/// image qualified as the main executable: a dump without an
/// identifiable main binary is considered unreliable.
pub fn read_loaded_modules(inputs: &Vec<ModuleInput>, buf: &mut DumpBuf) -> (r: Result<
    Vec<ModuleRecord>,
    TaskDumpError,
>)
    requires
        emit(inputs@, old(buf)@.len() as int).1 <= u32::MAX,
    ensures
        final(buf)@ == old(buf)@ + emit_payload(inputs@),
        final(buf)@.len() == emit(inputs@, old(buf)@.len() as int).1,
        match r {
            Ok(mods) => has_main(inputs@) && mods@ == emit(inputs@, old(buf)@.len() as int).0,
            Err(e) => e == TaskDumpError::MissingMainExecutable && !has_main(inputs@),
        },
{
    let ghost base = old(buf)@.len() as int;
    let ghost all = inputs@;
    let mut modules: Vec<ModuleRecord> = Vec::new();
    let mut has_main_executable = false;
    let n = inputs.len();
    let mut i: usize = 0;
    while i < n
        invariant
            i <= n,
            n == all.len(),
            all == inputs@,
            base == old(buf)@.len(),
            base <= buf@.len(),
            emit(all, base).1 <= u32::MAX,
            modules@ == emit(all.subrange(0, i as int), base).0,
            buf@.len() == emit(all.subrange(0, i as int), base).1,
            buf@ == old(buf)@ + emit_payload(all.subrange(0, i as int)),
            has_main_executable == has_main(all.subrange(0, i as int)),
        decreases n - i,
    {
        let ghost pre = all.subrange(0, i as int);
        let ghost post = all.subrange(0, i as int + 1);
        proof {
            assert(post.drop_last() =~= pre);
            assert(post.last() == all[i as int]);
            lemma_emit_prefix_bound(all, base, i as int + 1);
        }
        let inp = slice_index_get(inputs.as_slice(), i);
        let ghost buf_before = buf@;
        let ghost mods_before = modules@;
        match &inp.load_commands {
            Some(lc) => {
                match read_module(&inp.image, lc, &inp.file_path, buf) {
                    Ok((m, is_main)) => {
                        proof {
                            assert(input_ok(all[i as int]));
                            assert(m == record_at(all[i as int], buf_before.len() as int));
                            assert(buf@ =~= old(buf)@ + emit_payload(post));
                        }
                        if is_main {
                            modules.insert(0, m);
                            has_main_executable = true;
                            proof {
                                assert(modules@ =~= seq![m] + mods_before);
                            }
                        } else {
                            modules.push(m);
                        }
                    },
                    Err(_e) => {
                        proof {
                            assert(!input_ok(all[i as int]));
                        }
                    },
                }
            },
            None => {
                proof {
                    assert(!input_ok(all[i as int]));
                }
            },
        }
        proof {
            if has_main(post) != has_main(pre) {
            }
            assert(has_main(pre) ==> has_main(post));
            if input_is_main(all[i as int]) {
                assert(has_main(post));
            }
            if has_main(post) && !input_is_main(all[i as int]) {
                let w = choose|w: int| 0 <= w < post.len() && input_is_main(#[trigger] post[w]);
                assert(pre[w] == post[w]);
                assert(has_main(pre));
            }
        }
        i = i + 1;
    }
    proof {
        assert(all.subrange(0, n as int) =~= all);
    }
    if !has_main_executable {
        return Err(TaskDumpError::MissingMainExecutable);
    }
    Ok(modules)
}

/// The 108 serialized bytes of one module record, in the record
/// format's field order. Fields this enumeration never fills (the
/// checksum, the timestamp, the second half of the version block, the
/// auxiliary references) are written as zero.
pub open spec fn spec_serialize_module_record(m: ModuleRecord) -> Seq<u8> {
    spec_u64_to_le_bytes(m.base_of_image) + spec_u32_to_le_bytes(m.size_of_image)
        + spec_u32_to_le_bytes(0u32) + spec_u32_to_le_bytes(0u32) + spec_u32_to_le_bytes(
        m.module_name_rva,
    ) + spec_u32_to_le_bytes(m.version_signature) + spec_u32_to_le_bytes(m.version_struct_version)
        + spec_u32_to_le_bytes(m.version_file_hi) + spec_u32_to_le_bytes(m.version_file_lo)
        + spec_u32_to_le_bytes(0u32) + spec_u32_to_le_bytes(0u32) + spec_u32_to_le_bytes(0u32)
        + spec_u32_to_le_bytes(0u32) + spec_u32_to_le_bytes(0u32) + spec_u32_to_le_bytes(0u32)
        + spec_u32_to_le_bytes(0u32) + spec_u32_to_le_bytes(0u32) + spec_u32_to_le_bytes(0u32)
        + spec_u32_to_le_bytes(m.cv_record_size) + spec_u32_to_le_bytes(m.cv_record_rva)
        + spec_u64_to_le_bytes(0u64) + spec_u64_to_le_bytes(0u64) + spec_u64_to_le_bytes(0u64)
}

/// Appends one module record's 108 serialized bytes.
pub fn write_module_record(m: &ModuleRecord, buf: &mut DumpBuf) -> (pos: u32)
    requires
        old(buf)@.len() + MODULE_RECORD_SIZE <= u32::MAX,
    ensures
        final(buf)@ == old(buf)@ + spec_serialize_module_record(*m),
        final(buf)@.len() == old(buf)@.len() + MODULE_RECORD_SIZE,
        pos == old(buf)@.len(),
{
    proof {
        lemma_auto_spec_u32_to_from_le_bytes();
        lemma_auto_spec_u64_to_from_le_bytes();
    }
    let pos = buf.write_u64(m.base_of_image);
    buf.write_u32(m.size_of_image);
    buf.write_u32(0);
    buf.write_u32(0);
    buf.write_u32(m.module_name_rva);
    buf.write_u32(m.version_signature);
    buf.write_u32(m.version_struct_version);
    buf.write_u32(m.version_file_hi);
    buf.write_u32(m.version_file_lo);
    let mut k: usize = 0;
    while k < 9
        invariant
            k <= 9,
            buf@.len() + (9 - k) * 4 + 32 <= u32::MAX,
            buf@ == old(buf)@ + spec_u64_to_le_bytes(m.base_of_image) + spec_u32_to_le_bytes(
                m.size_of_image,
            ) + spec_u32_to_le_bytes(0u32) + spec_u32_to_le_bytes(0u32) + spec_u32_to_le_bytes(
                m.module_name_rva,
            ) + spec_u32_to_le_bytes(m.version_signature) + spec_u32_to_le_bytes(
                m.version_struct_version,
            ) + spec_u32_to_le_bytes(m.version_file_hi) + spec_u32_to_le_bytes(m.version_file_lo)
                + zero_words(k as nat),
        decreases 9 - k,
    {
        proof {
            lemma_auto_spec_u32_to_from_le_bytes();
        }
        buf.write_u32(0);
        proof {
            assert(zero_words((k + 1) as nat) =~= zero_words(k as nat) + spec_u32_to_le_bytes(
                0u32,
            ));
            assert_seqs_equal!(
                buf@ == old(buf)@ + spec_u64_to_le_bytes(m.base_of_image)
                    + spec_u32_to_le_bytes(m.size_of_image) + spec_u32_to_le_bytes(0u32)
                    + spec_u32_to_le_bytes(0u32) + spec_u32_to_le_bytes(m.module_name_rva)
                    + spec_u32_to_le_bytes(m.version_signature)
                    + spec_u32_to_le_bytes(m.version_struct_version)
                    + spec_u32_to_le_bytes(m.version_file_hi)
                    + spec_u32_to_le_bytes(m.version_file_lo) + zero_words((k + 1) as nat)
            );
        }
        k = k + 1;
    }
    buf.write_u32(m.cv_record_size);
    buf.write_u32(m.cv_record_rva);
    buf.write_u64(0);
    buf.write_u64(0);
    buf.write_u64(0);
    proof {
        reveal_with_fuel(zero_words, 10);
        assert(zero_words(9) =~= spec_u32_to_le_bytes(0u32) + spec_u32_to_le_bytes(0u32)
            + spec_u32_to_le_bytes(0u32) + spec_u32_to_le_bytes(0u32) + spec_u32_to_le_bytes(0u32)
            + spec_u32_to_le_bytes(0u32) + spec_u32_to_le_bytes(0u32) + spec_u32_to_le_bytes(0u32)
            + spec_u32_to_le_bytes(0u32));
        assert_seqs_equal!(final(buf)@ == old(buf)@ + spec_serialize_module_record(*m));
    }
    pos
}

/// `n` zero words, serialized.
pub open spec fn zero_words(n: nat) -> Seq<u8>
    decreases n,
{
    if n == 0 {
        Seq::<u8>::empty()
    } else {
        zero_words((n - 1) as nat) + spec_u32_to_le_bytes(0u32)
    }
}

/// The fields a serialized module record carries, read back from its
/// documented offsets.
pub open spec fn spec_parse_module_record(b: Seq<u8>, off: int) -> ModuleRecord {
    ModuleRecord {
        base_of_image: u64_at(b, off),
        size_of_image: u32_at(b, off + 8),
        module_name_rva: u32_at(b, off + 20),
        version_signature: u32_at(b, off + 24),
        version_struct_version: u32_at(b, off + 28),
        version_file_hi: u32_at(b, off + 32),
        version_file_lo: u32_at(b, off + 36),
        cv_record_size: u32_at(b, off + 76),
        cv_record_rva: u32_at(b, off + 80),
    }
}

/// Reads back the fields of the serialized module record at `off`.
pub fn parse_module_record(bytes: &Vec<u8>, off: usize) -> (r: ModuleRecord)
    requires
        off + MODULE_RECORD_SIZE <= bytes@.len(),
    ensures
        r == spec_parse_module_record(bytes@, off as int),
{
    let n = bytes.len();
    assert(off + MODULE_RECORD_SIZE <= n);
    ModuleRecord {
        base_of_image: crate::bytes::read_u64_at(bytes.as_slice(), off),
        size_of_image: crate::bytes::read_u32_at(bytes.as_slice(), off + 8),
        module_name_rva: crate::bytes::read_u32_at(bytes.as_slice(), off + 20),
        version_signature: crate::bytes::read_u32_at(bytes.as_slice(), off + 24),
        version_struct_version: crate::bytes::read_u32_at(bytes.as_slice(), off + 28),
        version_file_hi: crate::bytes::read_u32_at(bytes.as_slice(), off + 32),
        version_file_lo: crate::bytes::read_u32_at(bytes.as_slice(), off + 36),
        cv_record_size: crate::bytes::read_u32_at(bytes.as_slice(), off + 76),
        cv_record_rva: crate::bytes::read_u32_at(bytes.as_slice(), off + 80),
    }
}

/// Serialization round-trip: a serialized module record is 108 bytes,
/// and parsing them back at their documented offsets yields the
/// record unchanged.
pub proof fn lemma_module_record_round_trip(m: ModuleRecord)
    ensures
        spec_serialize_module_record(m).len() == MODULE_RECORD_SIZE,
        spec_parse_module_record(spec_serialize_module_record(m), 0) == m,
{
    lemma_auto_spec_u32_to_from_le_bytes();
    lemma_auto_spec_u64_to_from_le_bytes();
    let s = spec_serialize_module_record(m);
    assert_seqs_equal!(s.subrange(0, 8) == spec_u64_to_le_bytes(m.base_of_image));
    assert_seqs_equal!(s.subrange(8, 12) == spec_u32_to_le_bytes(m.size_of_image));
    assert_seqs_equal!(s.subrange(20, 24) == spec_u32_to_le_bytes(m.module_name_rva));
    assert_seqs_equal!(s.subrange(24, 28) == spec_u32_to_le_bytes(m.version_signature));
    assert_seqs_equal!(s.subrange(28, 32) == spec_u32_to_le_bytes(m.version_struct_version));
    assert_seqs_equal!(s.subrange(32, 36) == spec_u32_to_le_bytes(m.version_file_hi));
    assert_seqs_equal!(s.subrange(36, 40) == spec_u32_to_le_bytes(m.version_file_lo));
    assert_seqs_equal!(s.subrange(76, 80) == spec_u32_to_le_bytes(m.cv_record_size));
    assert_seqs_equal!(s.subrange(80, 84) == spec_u32_to_le_bytes(m.cv_record_rva));
}

/// The packed record array: each record's 108 bytes, in order.
pub open spec fn spec_serialize_records(mods: Seq<ModuleRecord>) -> Seq<u8>
    decreases mods.len(),
{
    if mods.len() == 0 {
        Seq::<u8>::empty()
    } else {
        spec_serialize_records(mods.drop_last()) + spec_serialize_module_record(mods.last())
    }
}

/// The packed record array occupies 108 bytes per record.
pub proof fn lemma_serialize_records_len(mods: Seq<ModuleRecord>)
    ensures
        spec_serialize_records(mods).len() == 108 * mods.len(),
    decreases mods.len(),
{
    if mods.len() > 0 {
        lemma_serialize_records_len(mods.drop_last());
        lemma_module_record_round_trip(mods.last());
    }
}

/// Writes the module-list stream: walks the per-image inputs (`None`
/// when the image list itself could not be read), then appends the
/// `u32` record count and the packed record array. Failure to read the
/// image list at all degrades to an empty list — a dump without
/// modules can still carry useful information — but a walk that finds
/// no main executable is fatal to the whole enumeration and its error
/// propagates, leaving only the payloads in the buffer. The returned
/// directory entry covers the count and the records, even when the
/// count is zero.
pub fn write_module_list(inputs: &Option<Vec<ModuleInput>>, buf: &mut DumpBuf) -> (r: Result<
    DirectoryEntry,
    TaskDumpError,
>)
    requires
        match *inputs {
            None => old(buf)@.len() + 4 <= u32::MAX,
            Some(ins) => emit(ins@, old(buf)@.len() as int).1 + 4 + 108 * ins@.len() <= u32::MAX,
        },
    ensures
        match *inputs {
            None => r matches Ok(de) && {
                &&& de.stream_type == MODULE_LIST_STREAM
                &&& de.rva == old(buf)@.len()
                &&& de.data_size == 4
                &&& final(buf)@ == old(buf)@ + spec_u32_to_le_bytes(0u32)
            },
            Some(ins) => {
                let base = old(buf)@.len() as int;
                let mods = emit(ins@, base).0;
                if has_main(ins@) {
                    r matches Ok(de) && {
                        &&& de.stream_type == MODULE_LIST_STREAM
                        &&& de.rva == emit(ins@, base).1
                        &&& de.data_size == 4 + 108 * mods.len()
                        &&& final(buf)@ == old(buf)@ + emit_payload(ins@) + spec_u32_to_le_bytes(
                            mods.len() as u32,
                        ) + spec_serialize_records(mods)
                    }
                } else {
                    r matches Err(e) && {
                        &&& e == TaskDumpError::MissingMainExecutable
                        &&& final(buf)@ == old(buf)@ + emit_payload(ins@)
                    }
                }
            },
        },
{
    proof {
        lemma_auto_spec_u32_to_from_le_bytes();
    }
    let ghost base = old(buf)@.len() as int;
    match inputs {
        None => {
            let rva = buf.position();
            buf.write_u32(0);
            Ok(DirectoryEntry { stream_type: MODULE_LIST_STREAM, rva, data_size: 4 })
        },
        Some(ins) => {
            proof {
                lemma_emit_shape(ins@, base);
            }
            let modules = match read_loaded_modules(ins, buf) {
                Ok(m) => m,
                Err(e) => {
                    return Err(e);
                },
            };
            let ghost mods = emit(ins@, base).0;
            let ghost payload = emit_payload(ins@);
            let rva = buf.position();
            buf.write_u32(modules.len() as u32);
            let ghost mid = buf@;
            let count = modules.len();
            let mut k: usize = 0;
            while k < count
                invariant
                    k <= count,
                    count == modules@.len(),
                    modules@ == mods,
                    mid == old(buf)@ + payload + spec_u32_to_le_bytes(count as u32),
                    mid.len() + 108 * count <= u32::MAX,
                    buf@ == mid + spec_serialize_records(modules@.subrange(0, k as int)),
                decreases count - k,
            {
                proof {
                    lemma_serialize_records_len(modules@.subrange(0, k as int));
                    assert(modules@.subrange(0, k as int + 1).drop_last() =~= modules@.subrange(
                        0,
                        k as int,
                    ));
                }
                write_module_record(&modules[k], buf);
                proof {
                    assert(buf@ =~= mid + spec_serialize_records(
                        modules@.subrange(0, k as int + 1),
                    ));
                }
                k = k + 1;
            }
            proof {
                assert(modules@.subrange(0, count as int) =~= modules@);
                lemma_serialize_records_len(modules@);
                assert(final(buf)@ =~= old(buf)@ + emit_payload(ins@) + spec_u32_to_le_bytes(
                    mods.len() as u32,
                ) + spec_serialize_records(mods));
            }
            let data_size = 4 + 108 * (count as u32);
            Ok(DirectoryEntry { stream_type: MODULE_LIST_STREAM, rva, data_size })
        },
    }
}

} // verus!
