//! Decoding of a Mach-O image's header and its size-prefixed
//! load-command stream: the tagged commands the module enumeration
//! reads (segment, dylib identification, unique id) and the first-match
//! scan over the stream.

use vstd::prelude::*;
use vstd::assert_seqs_equal;
use crate::bytes::{read_u32_at, read_u64_at, read_bytes_at, u32_at, u64_at};
use crate::task_dumper::TaskDumpError;

verus! {

/// 64-bit Mach-O header magic.
pub const MH_MAGIC_64: u32 = 0xfeedfacf;

/// Load-command tag of a 64-bit segment command.
pub const LC_SEGMENT_64: u32 = 0x19;

/// Load-command tag of a dylib's self-identification command.
pub const LC_ID_DYLIB: u32 = 0xd;

/// Load-command tag of the unique-id command.
pub const LC_UUID: u32 = 0x1b;

/// Byte size of the 64-bit Mach-O header.
pub const MACH_HEADER_64_SIZE: usize = 32;

/// The header-declared facts a validated 64-bit Mach-O header
/// contributes to enumeration: how many load commands follow it and
/// how many bytes they occupy.
pub struct MachHeader {
    pub num_commands: u32,
    pub size_commands: u32,
}

/// Validates the Mach-O header read at an image's load address and
/// extracts its command count and command-stream length. Only the
/// 64-bit magic is accepted; anything else is an invalid image header.
pub fn parse_mach_header(bytes: &Vec<u8>) -> (r: Result<MachHeader, TaskDumpError>)
    requires
        bytes@.len() >= 32,
    ensures
        match r {
            Ok(h) => {
                &&& u32_at(bytes@, 0) == MH_MAGIC_64
                &&& h.num_commands == u32_at(bytes@, 16)
                &&& h.size_commands == u32_at(bytes@, 20)
            },
            Err(e) => e == TaskDumpError::InvalidMachHeader && u32_at(bytes@, 0) != MH_MAGIC_64,
        },
{
    let magic = read_u32_at(bytes.as_slice(), 0);
    if magic != MH_MAGIC_64 {
        return Err(TaskDumpError::InvalidMachHeader);
    }
    let num_commands = read_u32_at(bytes.as_slice(), 16);
    let size_commands = read_u32_at(bytes.as_slice(), 20);
    Ok(MachHeader { num_commands, size_commands })
}

/// The raw load-command stream read from right after an image's
/// header, paired with the header-declared number of commands in it.
pub struct LoadCommands {
    pub buffer: Vec<u8>,
    pub count: u32,
}

/// The tag of the command at `off`.
pub open spec fn cmd_tag(b: Seq<u8>, off: int) -> u32 {
    u32_at(b, off)
}

/// The declared byte size of the command at `off`; it is also the
/// stride to the next command.
pub open spec fn cmd_size(b: Seq<u8>, off: int) -> u32 {
    u32_at(b, off + 4)
}

/// A command can be decoded at `off`: its fixed prefix and its whole
/// declared size lie inside the buffer, and the stride moves forward.
pub open spec fn cmd_ok(b: Seq<u8>, off: int) -> bool {
    &&& off + 8 <= b.len()
    &&& cmd_size(b, off) >= 8
    &&& off + cmd_size(b, off) <= b.len()
}

/// The command at `off` is a 64-bit segment command large enough to
/// carry its fixed fields.
pub open spec fn is_segment(b: Seq<u8>, off: int) -> bool {
    cmd_tag(b, off) == LC_SEGMENT_64 && cmd_size(b, off) >= 72
}

/// The 16-byte name of the segment command at `off`.
pub open spec fn seg_name(b: Seq<u8>, off: int) -> Seq<u8> {
    b.subrange(off + 8, off + 24)
}

/// The link-time virtual address of the segment command at `off`.
pub open spec fn seg_vm_addr(b: Seq<u8>, off: int) -> u64 {
    u64_at(b, off + 24)
}

/// The virtual size of the segment command at `off`.
pub open spec fn seg_vm_size(b: Seq<u8>, off: int) -> u64 {
    u64_at(b, off + 32)
}

/// The file offset of the segment command at `off`.
pub open spec fn seg_file_off(b: Seq<u8>, off: int) -> u64 {
    u64_at(b, off + 40)
}

/// The file size of the segment command at `off`.
pub open spec fn seg_file_size(b: Seq<u8>, off: int) -> u64 {
    u64_at(b, off + 48)
}

/// The 7-byte tag that names the text segment: `__TEXT` and one
/// trailing zero byte.
pub open spec fn text_segment_name() -> Seq<u8> {
    seq![95u8, 95u8, 84u8, 69u8, 88u8, 84u8, 0u8]
}

/// The command at `off` is a segment command whose name begins with
/// the text-segment tag.
pub open spec fn is_text_segment(b: Seq<u8>, off: int) -> bool {
    is_segment(b, off) && seg_name(b, off).subrange(0, 7) == text_segment_name()
}

/// The command at `off` is a dylib identification command large enough
/// to carry its version field.
pub open spec fn is_dylib_id(b: Seq<u8>, off: int) -> bool {
    cmd_tag(b, off) == LC_ID_DYLIB && cmd_size(b, off) >= 24
}

/// The packed version carried by the dylib identification command at
/// `off`.
pub open spec fn dylib_version(b: Seq<u8>, off: int) -> u32 {
    u32_at(b, off + 16)
}

/// The command at `off` is a unique-id command large enough to carry
/// its 16 id bytes.
pub open spec fn is_uuid_cmd(b: Seq<u8>, off: int) -> bool {
    cmd_tag(b, off) == LC_UUID && cmd_size(b, off) >= 24
}

/// The 16 unique-id bytes of the unique-id command at `off`.
pub open spec fn uuid_bytes(b: Seq<u8>, off: int) -> Seq<u8> {
    b.subrange(off + 8, off + 24)
}

/// Offset of the first text-segment command among the first `n`
/// commands starting at `off`; `None` when the scan exhausts the
/// stream, or stops at an undecodable command, without finding one.
pub open spec fn scan_text_segment(b: Seq<u8>, n: nat, off: int) -> Option<int>
    decreases n,
{
    if n == 0 || !cmd_ok(b, off) {
        None
    } else if is_text_segment(b, off) {
        Some(off)
    } else {
        scan_text_segment(b, (n - 1) as nat, off + cmd_size(b, off))
    }
}

/// Offset of the first dylib identification command, under the same
/// scan rules as `scan_text_segment`.
pub open spec fn scan_dylib_id(b: Seq<u8>, n: nat, off: int) -> Option<int>
    decreases n,
{
    if n == 0 || !cmd_ok(b, off) {
        None
    } else if is_dylib_id(b, off) {
        Some(off)
    } else {
        scan_dylib_id(b, (n - 1) as nat, off + cmd_size(b, off))
    }
}

/// Offset of the first unique-id command, under the same scan rules as
/// `scan_text_segment`.
pub open spec fn scan_uuid(b: Seq<u8>, n: nat, off: int) -> Option<int>
    decreases n,
{
    if n == 0 || !cmd_ok(b, off) {
        None
    } else if is_uuid_cmd(b, off) {
        Some(off)
    } else {
        scan_uuid(b, (n - 1) as nat, off + cmd_size(b, off))
    }
}

/// A found unique-id scan stops at a decodable unique-id command, so
/// its 16 id bytes lie inside the buffer.
pub proof fn lemma_scan_uuid_found(b: Seq<u8>, n: nat, off: int)
    requires
        0 <= off,
        scan_uuid(b, n, off) is Some,
    ensures
        ({
            let o = scan_uuid(b, n, off)->0;
            &&& off <= o
            &&& cmd_ok(b, o)
            &&& is_uuid_cmd(b, o)
            &&& uuid_bytes(b, o).len() == 16
        }),
    decreases n,
{
    if n != 0 && cmd_ok(b, off) && !is_uuid_cmd(b, off) {
        lemma_scan_uuid_found(b, (n - 1) as nat, off + cmd_size(b, off));
    }
}

/// The fixed fields of a 64-bit segment command that module records
/// need.
pub struct SegmentCommand64 {
    pub segment_name: Vec<u8>,
    pub vm_addr: u64,
    pub vm_size: u64,
    pub file_off: u64,
    pub file_size: u64,
}

/// One decoded load command. Only the three tags the enumeration reads
/// are interpreted; every other command, and any recognized tag whose
/// declared size is too small for its fixed fields, is carried as
/// `Other` so its declared size can still stride past it.
pub enum LoadCommand {
    Segment(SegmentCommand64),
    DylibId(u32),
    Uuid(Vec<u8>),
    Other(u32),
}

/// Decodes the load command at `off`.
pub fn decode_command(b: &Vec<u8>, off: usize) -> (r: LoadCommand)
    requires
        cmd_ok(b@, off as int),
    ensures
        match r {
            LoadCommand::Segment(sc) => {
                &&& is_segment(b@, off as int)
                &&& sc.segment_name@ == seg_name(b@, off as int)
                &&& sc.vm_addr == seg_vm_addr(b@, off as int)
                &&& sc.vm_size == seg_vm_size(b@, off as int)
                &&& sc.file_off == seg_file_off(b@, off as int)
                &&& sc.file_size == seg_file_size(b@, off as int)
            },
            LoadCommand::DylibId(v) => is_dylib_id(b@, off as int) && v == dylib_version(
                b@,
                off as int,
            ),
            LoadCommand::Uuid(u) => is_uuid_cmd(b@, off as int) && u@ == uuid_bytes(
                b@,
                off as int,
            ),
            LoadCommand::Other(t) => {
                &&& t == cmd_tag(b@, off as int)
                &&& !is_segment(b@, off as int)
                &&& !is_dylib_id(b@, off as int)
                &&& !is_uuid_cmd(b@, off as int)
            },
        },
{
    let n = b.len();
    assert(off + 8 <= n);
    let tag = read_u32_at(b.as_slice(), off);
    let size = read_u32_at(b.as_slice(), off + 4);
    if tag == LC_SEGMENT_64 && size >= 72 {
        let segment_name = read_bytes_at(b.as_slice(), off + 8, 16);
        let vm_addr = read_u64_at(b.as_slice(), off + 24);
        let vm_size = read_u64_at(b.as_slice(), off + 32);
        let file_off = read_u64_at(b.as_slice(), off + 40);
        let file_size = read_u64_at(b.as_slice(), off + 48);
        LoadCommand::Segment(SegmentCommand64 { segment_name, vm_addr, vm_size, file_off, file_size })
    } else if tag == LC_ID_DYLIB && size >= 24 {
        LoadCommand::DylibId(read_u32_at(b.as_slice(), off + 16))
    } else if tag == LC_UUID && size >= 24 {
        LoadCommand::Uuid(read_bytes_at(b.as_slice(), off + 8, 16))
    } else {
        LoadCommand::Other(tag)
    }
}

/// Decides whether a segment's 16-byte name begins with the
/// text-segment tag.
fn is_text_name(name: &Vec<u8>) -> (r: bool)
    requires
        name@.len() == 16,
    ensures
        r == (name@.subrange(0, 7) == text_segment_name()),
{
    let r = name[0] == 95 && name[1] == 95 && name[2] == 84 && name[3] == 69 && name[4] == 88
        && name[5] == 84 && name[6] == 0;
    proof {
        let s = name@.subrange(0, 7);
        let t = text_segment_name();
        if r {
            assert_seqs_equal!(s == t);
        } else {
            if s == t {
                assert(name@[0] == t[0] && name@[1] == t[1] && name@[2] == t[2] && name@[3] == t[3]
                    && name@[4] == t[4] && name@[5] == t[5] && name@[6] == t[6]);
            }
        }
    }
    r
}

/// The per-image scan result: the first text-segment command, the
/// first identification version, and the first unique id found in the
/// stream, each `None` when the stream holds none before the scan
/// stops.
pub struct ScanResult {
    pub segment: Option<SegmentCommand64>,
    pub version: Option<u32>,
    pub uuid: Option<Vec<u8>>,
}

/// Scans an image's load-command stream for the first text-segment
/// command, the first dylib identification and the first unique id,
/// stopping early once all three are found or the stream is exhausted.
pub fn scan_load_commands(lc: &LoadCommands) -> (r: ScanResult)
    ensures
        r.segment is Some <==> scan_text_segment(lc.buffer@, lc.count as nat, 0) is Some,
        r.segment matches Some(sc) ==> {
            let off = scan_text_segment(lc.buffer@, lc.count as nat, 0)->0;
            &&& sc.segment_name@ == seg_name(lc.buffer@, off)
            &&& sc.vm_addr == seg_vm_addr(lc.buffer@, off)
            &&& sc.vm_size == seg_vm_size(lc.buffer@, off)
            &&& sc.file_off == seg_file_off(lc.buffer@, off)
            &&& sc.file_size == seg_file_size(lc.buffer@, off)
        },
        r.version is Some <==> scan_dylib_id(lc.buffer@, lc.count as nat, 0) is Some,
        r.version matches Some(v) ==> v == dylib_version(
            lc.buffer@,
            scan_dylib_id(lc.buffer@, lc.count as nat, 0)->0,
        ),
        r.uuid is Some <==> scan_uuid(lc.buffer@, lc.count as nat, 0) is Some,
        r.uuid matches Some(u) ==> u@.len() == 16 && u@ == uuid_bytes(
            lc.buffer@,
            scan_uuid(lc.buffer@, lc.count as nat, 0)->0,
        ),
{
    let b = &lc.buffer;
    let count = lc.count;
    let n = b.len();
    let ghost bs = b@;
    let mut segment: Option<SegmentCommand64> = None;
    let mut version: Option<u32> = None;
    let mut uuid: Option<Vec<u8>> = None;
    let mut off: usize = 0;
    let mut i: u32 = 0;
    while i < count
        invariant
            n == bs.len(),
            bs == lc.buffer@,
            b@ == bs,
            i <= count,
            off <= n,
            match segment {
                Some(sc) => scan_text_segment(bs, count as nat, 0) matches Some(soff) && {
                    &&& sc.segment_name@ == seg_name(bs, soff)
                    &&& sc.vm_addr == seg_vm_addr(bs, soff)
                    &&& sc.vm_size == seg_vm_size(bs, soff)
                    &&& sc.file_off == seg_file_off(bs, soff)
                    &&& sc.file_size == seg_file_size(bs, soff)
                },
                None => scan_text_segment(bs, count as nat, 0) == scan_text_segment(
                    bs,
                    (count - i) as nat,
                    off as int,
                ),
            },
            match version {
                Some(v) => scan_dylib_id(bs, count as nat, 0) matches Some(doff) && v
                    == dylib_version(bs, doff),
                None => scan_dylib_id(bs, count as nat, 0) == scan_dylib_id(
                    bs,
                    (count - i) as nat,
                    off as int,
                ),
            },
            match uuid {
                Some(u) => scan_uuid(bs, count as nat, 0) matches Some(uoff) && u@.len() == 16
                    && u@ == uuid_bytes(bs, uoff),
                None => scan_uuid(bs, count as nat, 0) == scan_uuid(
                    bs,
                    (count - i) as nat,
                    off as int,
                ),
            },
        ensures
            segment is None ==> scan_text_segment(bs, count as nat, 0) is None,
            version is None ==> scan_dylib_id(bs, count as nat, 0) is None,
            uuid is None ==> scan_uuid(bs, count as nat, 0) is None,
        decreases count - i,
    {
        if segment.is_some() && version.is_some() && uuid.is_some() {
            break;
        }
        if n - off < 8 {
            break;
        }
        let size = read_u32_at(b.as_slice(), off + 4);
        if size < 8 || size as usize > n - off {
            break;
        }
        assert(cmd_ok(bs, off as int));
        let cmd = decode_command(b, off);
        match cmd {
            LoadCommand::Segment(sc) => {
                if segment.is_none() && is_text_name(&sc.segment_name) {
                    assert(is_text_segment(bs, off as int));
                    segment = Some(sc);
                } else {
                    proof {
                        if segment is None {
                            assert(!is_text_segment(bs, off as int));
                        }
                    }
                }
            },
            LoadCommand::DylibId(v) => {
                if version.is_none() {
                    version = Some(v);
                }
            },
            LoadCommand::Uuid(u) => {
                if uuid.is_none() {
                    uuid = Some(u);
                }
            },
            LoadCommand::Other(_t) => {
            },
        }
        proof {
            let m = (count - i) as nat;
            let off2 = off + cmd_size(bs, off as int);
            if segment is None {
                assert(scan_text_segment(bs, m, off as int) == scan_text_segment(
                    bs,
                    (m - 1) as nat,
                    off2,
                ));
            }
            if version is None {
                assert(scan_dylib_id(bs, m, off as int) == scan_dylib_id(bs, (m - 1) as nat, off2));
            }
            if uuid is None {
                assert(scan_uuid(bs, m, off as int) == scan_uuid(bs, (m - 1) as nat, off2));
            }
        }
        off = off + size as usize;
        i = i + 1;
    }
    ScanResult { segment, version, uuid }
}

} // verus!
