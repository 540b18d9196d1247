//! Types and pure helpers for inspecting a frozen task: the error
//! taxonomy, image descriptors, virtual-memory region descriptions, and
//! the page-window and string-bound arithmetic that remote reads need.

use vstd::prelude::*;
use crate::bytes::{read_u32_at, read_u64_at, u32_at, u64_at};
use vstd::arithmetic::div_mod::{
    lemma_fundamental_div_mod, lemma_mod_decreases, lemma_mod_division_less_than_divisor,
    lemma_mod_multiples_basic,
};
use vstd::assert_seqs_equal;

verus! {

/// Errors that task inspection and module enumeration can produce.
#[derive(Debug)]
pub enum TaskDumpError {
    /// A kernel primitive failed; carries the call's name and its status code.
    Kernel { syscall: &'static str, error: i32 },
    /// An image's header did not carry the 64-bit Mach-O magic.
    InvalidMachHeader,
    /// No enumerated image qualified as the main executable.
    MissingMainExecutable,
    /// An image's load commands lacked the text segment or the unique id.
    MissingRequiredField,
    /// Remote string bytes were not valid UTF-8.
    TextDecodeFailure,
}

/// A loaded-image descriptor as the dynamic linker records it: the image's
/// load address, a remote pointer to its file path (0 when absent), and its
/// modification date.
///
/// Equality and ordering are defined solely by `load_address`: the platform
/// is known to list one image twice, and enumeration collapses such
/// duplicates by address alone.
#[derive(Clone, Copy, Debug)]
pub struct ImageInfo {
    pub load_address: u64,
    pub file_path: u64,
    pub file_mod_date: u64,
}

impl PartialEq for ImageInfo {
    fn eq(&self, o: &Self) -> bool {
        self.load_address == o.load_address
    }
}

impl vstd::std_specs::cmp::PartialEqSpecImpl for ImageInfo {
    open spec fn obeys_eq_spec() -> bool {
        true
    }

    open spec fn eq_spec(&self, o: &Self) -> bool {
        self.load_address == o.load_address
    }
}

impl PartialOrd for ImageInfo {
    fn partial_cmp(&self, o: &Self) -> (r: Option<core::cmp::Ordering>) {
        if self.load_address < o.load_address {
            Some(core::cmp::Ordering::Less)
        } else if self.load_address == o.load_address {
            Some(core::cmp::Ordering::Equal)
        } else {
            Some(core::cmp::Ordering::Greater)
        }
    }
}

impl vstd::std_specs::cmp::PartialOrdSpecImpl for ImageInfo {
    open spec fn obeys_partial_cmp_spec() -> bool {
        true
    }

    open spec fn partial_cmp_spec(&self, o: &Self) -> Option<core::cmp::Ordering> {
        if self.load_address < o.load_address {
            Some(core::cmp::Ordering::Less)
        } else if self.load_address == o.load_address {
            Some(core::cmp::Ordering::Equal)
        } else {
            Some(core::cmp::Ordering::Greater)
        }
    }
}

/// Describes one region of the target task's virtual memory: the
/// half-open address range it covers and its protection.
#[derive(Clone, Copy, Debug)]
pub struct VMRegionInfo {
    pub range_start: u64,
    pub range_end: u64,
    pub protection: i32,
}

impl VMRegionInfo {
    /// A region is well formed when its range is properly ordered.
    pub open spec fn wf(self) -> bool {
        self.range_start <= self.range_end
    }
}

/// `x` rounded up to the next multiple of `p`.
pub open spec fn round_up(x: int, p: int) -> int {
    ((x + p - 1) / p) * p
}

/// Rounding up lands on a multiple of `p` within less than `p` of `x`.
pub proof fn lemma_round_up(x: int, p: int)
    requires
        p >= 1,
        x >= 0,
    ensures
        round_up(x, p) % p == 0,
        round_up(x, p) >= x,
        round_up(x, p) < x + p,
{
    let y = x + p - 1;
    lemma_fundamental_div_mod(y, p);
    lemma_mod_division_less_than_divisor(y, p);
    lemma_mod_multiples_basic(y / p, p);
    assert((y / p) * p == p * (y / p)) by (nonlinear_arith);
}

/// The page-aligned window that one kernel read must cover so that
/// `length` bytes starting at `address` lie inside it: the containing
/// page's base address and the window's size, a whole number of pages.
///
/// The requested span need not be page-aligned; the window starts at or
/// before `address` and ends at or after `address + length`.
pub fn read_window_bounds(address: u64, length: u64, page_size: u64) -> (r: (u64, u64))
    requires
        page_size >= 1,
        address + length + page_size - 1 <= u64::MAX,
    ensures
        r.0 == address - address % page_size,
        r.0 + r.1 == round_up(address + length, page_size as int),
        r.0 % page_size == 0,
        r.0 <= address,
        address - r.0 < page_size,
        address + length <= r.0 + r.1,
{
    proof {
        lemma_mod_division_less_than_divisor(address as int, page_size as int);
        lemma_mod_decreases(address as nat, page_size as nat);
        lemma_round_up((address + length) as int, page_size as int);
        lemma_fundamental_div_mod(address as int, page_size as int);
        lemma_mod_multiples_basic(address as int / page_size as int, page_size as int);
        assert((address as int / page_size as int) * page_size as int == page_size as int * (
        address as int / page_size as int)) by (nonlinear_arith);
    }
    let page_address = address - address % page_size;
    let last_page_address = ((address + length + (page_size - 1)) / page_size) * page_size;
    (page_address, last_page_address - page_address)
}

/// A page-straddling read loses nothing: copying the requested span out
/// of the page-aligned window that covers it yields exactly the bytes a
/// direct unaligned read of the same addresses would give.
pub proof fn lemma_page_straddling_read(mem: Seq<u8>, address: int, length: int, page_addr: int, window_len: int)
    requires
        0 <= page_addr <= address,
        0 <= length,
        address + length <= page_addr + window_len,
        page_addr + window_len <= mem.len(),
    ensures
        mem.subrange(page_addr, page_addr + window_len).subrange(
            address - page_addr,
            address - page_addr + length,
        ) == mem.subrange(address, address + length),
{
    assert_seqs_equal!(
        mem.subrange(page_addr, page_addr + window_len)
            .subrange(address - page_addr, address - page_addr + length)
        == mem.subrange(address, address + length)
    );
}

/// The byte budget a remote string read may use, measured from `addr`:
/// the rest of the containing region, extended to the end of the
/// immediately following region when the rest is under 4096 bytes and
/// that region starts exactly where the current one ends.
pub open spec fn spec_string_read_bound(
    addr: u64,
    region: VMRegionInfo,
    adjacent: Option<VMRegionInfo>,
) -> int {
    let base = region.range_end - addr;
    match adjacent {
        Some(next) => if base < 4096 && next.range_start == region.range_end {
            base + (next.range_end - next.range_start)
        } else {
            base
        },
        None => base,
    }
}

/// Computes the remote-string read budget for `addr` inside `region`;
/// `adjacent` is the region probed at `region.range_end`, when the
/// caller probed one.
pub fn string_read_bound(addr: u64, region: &VMRegionInfo, adjacent: Option<VMRegionInfo>) -> (r: u64)
    requires
        region.wf(),
        region.range_start <= addr < region.range_end,
        adjacent matches Some(n) ==> n.wf(),
    ensures
        r == spec_string_read_bound(addr, *region, adjacent),
{
    let size_to_end = region.range_end - addr;
    if size_to_end < 4096 {
        if let Some(next) = adjacent {
            if next.range_start == region.range_end {
                return size_to_end + (next.range_end - next.range_start);
            }
        }
    }
    size_to_end
}

/// A remote string read stays inside mapped, adjacent memory: with a
/// gap before the following region (or no probed region at all) the
/// budget stops exactly at the current region's end, so no foreign
/// bytes can enter the read; with a contiguous following region it
/// extends exactly to that region's end.
pub proof fn lemma_string_bound_confinement(
    addr: u64,
    region: VMRegionInfo,
    adjacent: Option<VMRegionInfo>,
)
    requires
        region.wf(),
        region.range_start <= addr < region.range_end,
        adjacent matches Some(n) ==> n.wf(),
    ensures
        (match adjacent {
            Some(n) => n.range_start != region.range_end || region.range_end - addr >= 4096,
            None => true,
        }) ==> addr + spec_string_read_bound(addr, region, adjacent) == region.range_end,
        (adjacent matches Some(n) && n.range_start == region.range_end && region.range_end - addr
            < 4096) ==> addr + spec_string_read_bound(addr, region, adjacent)
            == adjacent.unwrap().range_end,
{
}

/// `p` is the prefix of `s` that stops at the first zero byte: it is an
/// initial segment of `s`, contains no zero byte, and is either all of
/// `s` or ends right before a zero byte. Exactly one `p` satisfies this
/// for a given `s`.
pub open spec fn is_nul_prefix(s: Seq<u8>, p: Seq<u8>) -> bool {
    &&& p.len() <= s.len()
    &&& p == s.subrange(0, p.len() as int)
    &&& forall|i: int| 0 <= i < p.len() ==> s[i] != 0
    &&& (p.len() < s.len() ==> s[p.len() as int] == 0)
}

/// Only one sequence is the nul-terminated prefix of `s`.
pub proof fn lemma_nul_prefix_unique(s: Seq<u8>, p1: Seq<u8>, p2: Seq<u8>)
    requires
        is_nul_prefix(s, p1),
        is_nul_prefix(s, p2),
    ensures
        p1 == p2,
{
    if p1.len() < p2.len() {
        assert(s[p1.len() as int] == 0);
        assert(s[p1.len() as int] != 0);
    }
    if p2.len() < p1.len() {
        assert(s[p2.len() as int] == 0);
        assert(s[p2.len() as int] != 0);
    }
    assert_seqs_equal!(p1 == p2);
}

/// Cuts `bytes` at the first zero byte, returning the bytes before it;
/// returns all of `bytes` when no zero byte occurs.
pub fn truncate_at_nul(bytes: &Vec<u8>) -> (r: Vec<u8>)
    ensures
        is_nul_prefix(bytes@, r@),
{
    let n = bytes.len();
    let mut r: Vec<u8> = Vec::new();
    let mut i: usize = 0;
    while i < n
        invariant
            i <= n,
            n == bytes@.len(),
            r@ == bytes@.subrange(0, i as int),
            forall|j: int| 0 <= j < i ==> bytes@[j] != 0,
        decreases n - i,
    {
        if bytes[i] == 0 {
            return r;
        }
        r.push(bytes[i]);
        proof {
            assert_seqs_equal!(r@ == bytes@.subrange(0, i + 1));
        }
        i += 1;
    }
    r
}

/// Byte size of the all-images header prefix that
/// `parse_all_images_info` reads.
pub const ALL_IMAGES_INFO_SIZE: usize = 16;

/// The few leading fields of the dynamic linker's all-images header
/// that enumeration needs: its version, the number of image
/// descriptors, and the remote address of the descriptor array.
pub struct AllImagesInfo {
    pub version: u32,
    pub info_array_count: u32,
    pub info_array_addr: u64,
}

/// Decodes the all-images header prefix from the bytes read at the
/// address that the task's dynamic-linker info reports.
pub fn parse_all_images_info(bytes: &Vec<u8>) -> (r: AllImagesInfo)
    requires
        bytes@.len() >= ALL_IMAGES_INFO_SIZE,
    ensures
        r.version == u32_at(bytes@, 0),
        r.info_array_count == u32_at(bytes@, 4),
        r.info_array_addr == u64_at(bytes@, 8),
{
    AllImagesInfo {
        version: read_u32_at(bytes.as_slice(), 0),
        info_array_count: read_u32_at(bytes.as_slice(), 4),
        info_array_addr: read_u64_at(bytes.as_slice(), 8),
    }
}

/// Byte size of one image descriptor in the dynamic linker's array.
pub const IMAGE_INFO_SIZE: usize = 24;

/// Decodes `count` image descriptors from the bytes read at the
/// descriptor array's address: each is three little-endian 64-bit
/// words, the load address, the remote file-path pointer, and the
/// modification date.
pub fn parse_image_info_array(bytes: &Vec<u8>, count: u32) -> (r: Vec<ImageInfo>)
    requires
        count * IMAGE_INFO_SIZE <= bytes@.len(),
    ensures
        r@.len() == count,
        forall|k: int| 0 <= k < count ==> {
            &&& (#[trigger] r@[k]).load_address == u64_at(bytes@, 24 * k)
            &&& r@[k].file_path == u64_at(bytes@, 24 * k + 8)
            &&& r@[k].file_mod_date == u64_at(bytes@, 24 * k + 16)
        },
{
    let mut r: Vec<ImageInfo> = Vec::new();
    let blen = bytes.len();
    let mut k: usize = 0;
    while k < count as usize
        invariant
            k <= count,
            blen == bytes@.len(),
            count * IMAGE_INFO_SIZE <= bytes@.len(),
            r@.len() == k,
            forall|j: int| 0 <= j < k ==> {
                &&& (#[trigger] r@[j]).load_address == u64_at(bytes@, 24 * j)
                &&& r@[j].file_path == u64_at(bytes@, 24 * j + 8)
                &&& r@[j].file_mod_date == u64_at(bytes@, 24 * j + 16)
            },
        decreases count - k,
    {
        assert(k * IMAGE_INFO_SIZE + IMAGE_INFO_SIZE <= count * IMAGE_INFO_SIZE);
        let base = k * IMAGE_INFO_SIZE;
        let img = ImageInfo {
            load_address: read_u64_at(bytes.as_slice(), base),
            file_path: read_u64_at(bytes.as_slice(), base + 8),
            file_mod_date: read_u64_at(bytes.as_slice(), base + 16),
        };
        r.push(img);
        k = k + 1;
    }
    r
}

/// `x` stands at some position of `s` before which no descriptor
/// carries `x`'s load address: `x` is the first descriptor listed with
/// that address.
pub open spec fn is_first_with_address(s: Seq<ImageInfo>, x: ImageInfo) -> bool {
    exists|j: int|
        0 <= j < s.len() && s[j] == x && (forall|k: int|
            0 <= k < j ==> (#[trigger] s[k]).load_address != x.load_address)
}

/// Some descriptor of `s` carries load address `a`.
pub open spec fn has_address(s: Seq<ImageInfo>, a: u64) -> bool {
    exists|i: int| 0 <= i < s.len() && (#[trigger] s[i]).load_address == a
}

/// Sorts the enumerated image descriptors ascending by load address
/// and collapses duplicates. The platform may list one image more than
/// once, and descriptors compare by load address alone, so of several
/// descriptors with one address exactly the first listed survives.
pub fn dedup_images(images: &Vec<ImageInfo>) -> (r: Vec<ImageInfo>)
    ensures
        forall|i: int, j: int|
            0 <= i < j < r@.len() ==> (#[trigger] r@[i]).load_address < (
            #[trigger] r@[j]).load_address,
        forall|i: int| 0 <= i < r@.len() ==> is_first_with_address(images@, #[trigger] r@[i]),
        forall|j: int|
            0 <= j < images@.len() ==> has_address(r@, (#[trigger] images@[j]).load_address),
{
    let n = images.len();
    let mut r: Vec<ImageInfo> = Vec::new();
    let mut idx: usize = 0;
    while idx < n
        invariant
            idx <= n,
            n == images@.len(),
            forall|i: int, j: int|
                0 <= i < j < r@.len() ==> (#[trigger] r@[i]).load_address < (
                #[trigger] r@[j]).load_address,
            forall|i: int|
                0 <= i < r@.len() ==> is_first_with_address(
                    images@.subrange(0, idx as int),
                    #[trigger] r@[i],
                ),
            forall|j: int|
                0 <= j < idx ==> has_address(r@, (#[trigger] images@[j]).load_address),
        decreases n - idx,
    {
        let img = images[idx];
        let rlen = r.len();
        let mut pos: usize = 0;
        while pos < rlen && r[pos].load_address < img.load_address
            invariant
                rlen == r@.len(),
                pos <= rlen,
                forall|t: int| 0 <= t < pos ==> (#[trigger] r@[t]).load_address < img.load_address,
            decreases rlen - pos,
        {
            pos = pos + 1;
        }
        let duplicate = pos < rlen && r[pos].load_address == img.load_address;
        if duplicate {
            proof {
                let ghost prev = images@.subrange(0, idx as int);
                let ghost ext = images@.subrange(0, idx as int + 1);
                assert forall|i: int| 0 <= i < r@.len() implies is_first_with_address(
                    ext,
                    #[trigger] r@[i],
                ) by {
                    let j = choose|j: int|
                        0 <= j < prev.len() && prev[j] == r@[i] && (forall|k: int|
                            0 <= k < j ==> (#[trigger] prev[k]).load_address
                                != r@[i].load_address);
                    assert(ext[j] == r@[i]);
                    assert(forall|k: int|
                        0 <= k < j ==> (#[trigger] ext[k]).load_address != r@[i].load_address);
                }
            }
        } else {
            proof {
                // No element of r carries img's address: those before pos are
                // smaller, and r[pos] (when present) is larger, so sortedness
                // bounds everything from pos upward away from it.
                assert forall|t: int| 0 <= t < r@.len() implies (#[trigger] r@[t]).load_address
                    != img.load_address by {
                    if t >= pos && pos < r@.len() {
                        assert(r@[pos as int].load_address <= r@[t].load_address);
                    }
                }
                // Hence no earlier descriptor carries it either, else the
                // third invariant would have put that address into r.
                assert forall|k: int| 0 <= k < idx implies (#[trigger] images@[k]).load_address
                    != img.load_address by {
                    if images@[k].load_address == img.load_address {
                        assert(has_address(r@, images@[k].load_address));
                    }
                }
            }
            let ghost old_r = r@;
            r.insert(pos, img);
            proof {
                old_r.insert_ensures(pos as int, img);
                let ghost prev = images@.subrange(0, idx as int);
                let ghost ext = images@.subrange(0, idx as int + 1);
                assert forall|i: int, j: int| 0 <= i < j < r@.len() implies (
                #[trigger] r@[i]).load_address < (#[trigger] r@[j]).load_address by {
                    if j < pos {
                    } else if i < pos && j == pos {
                        assert(r@[i] == old_r[i]);
                    } else if i < pos && j > pos {
                        assert(r@[j] == old_r[j - 1]);
                        assert(old_r[pos as int].load_address <= old_r[j - 1].load_address);
                    } else if i == pos {
                        assert(r@[j] == old_r[j - 1]);
                        assert(old_r[pos as int].load_address <= old_r[j - 1].load_address);
                    } else {
                    }
                }
                assert forall|i: int| 0 <= i < r@.len() implies is_first_with_address(
                    ext,
                    #[trigger] r@[i],
                ) by {
                    if i == pos {
                        assert(ext[idx as int] == img);
                        assert(r@[i] == img);
                        assert(forall|k: int|
                            0 <= k < idx ==> (#[trigger] ext[k]).load_address
                                != img.load_address);
                    } else {
                        let x = if i < pos {
                            old_r[i]
                        } else {
                            old_r[i - 1]
                        };
                        assert(r@[i] == x);
                        let j = choose|j: int|
                            0 <= j < prev.len() && prev[j] == x && (forall|k: int|
                                0 <= k < j ==> (#[trigger] prev[k]).load_address
                                    != x.load_address);
                        assert(ext[j] == x);
                        assert(forall|k: int|
                            0 <= k < j ==> (#[trigger] ext[k]).load_address != x.load_address);
                    }
                }
                assert forall|j: int| 0 <= j < idx + 1 implies has_address(
                    r@,
                    (#[trigger] images@[j]).load_address,
                ) by {
                    if j == idx {
                        assert(r@[pos as int].load_address == img.load_address);
                    } else {
                        let t = choose|t: int|
                            0 <= t < old_r.len() && (#[trigger] old_r[t]).load_address
                                == images@[j].load_address;
                        if t < pos {
                            assert(r@[t].load_address == images@[j].load_address);
                        } else {
                            assert(r@[t + 1].load_address == images@[j].load_address);
                        }
                    }
                }
            }
        }
        idx = idx + 1;
    }
    proof {
        assert(images@.subrange(0, n as int) == images@);
    }
    r
}

/// Whether a byte sequence is valid UTF-8, as `core::str::from_utf8`
/// decides it.
pub uninterp spec fn is_utf8(bytes: Seq<u8>) -> bool;

/// Relies on `core::str::from_utf8`: it returns `Ok` exactly when the
/// bytes are valid UTF-8, and validity is a function of the bytes alone.
#[verifier::external_body]
fn utf8_check(bytes: &[u8]) -> (r: bool)
    ensures
        r == is_utf8(bytes@),
{
    core::str::from_utf8(bytes).is_ok()
}

/// Decodes the raw bytes of a remote string read: cuts them at the
/// first zero byte and accepts the result only when it is valid UTF-8,
/// as the target's file paths must be.
pub fn decode_remote_string(bytes: &Vec<u8>) -> (r: Result<Vec<u8>, TaskDumpError>)
    ensures
        match r {
            Ok(s) => is_nul_prefix(bytes@, s@) && is_utf8(s@),
            Err(e) => {
                &&& e == TaskDumpError::TextDecodeFailure
                &&& forall|p: Seq<u8>| is_nul_prefix(bytes@, p) ==> !is_utf8(p)
            },
        },
{
    let s = truncate_at_nul(bytes);
    if utf8_check(s.as_slice()) {
        Ok(s)
    } else {
        proof {
            assert forall|p: Seq<u8>| is_nul_prefix(bytes@, p) implies !is_utf8(p) by {
                lemma_nul_prefix_unique(bytes@, p, s@);
            }
        }
        Err(TaskDumpError::TextDecodeFailure)
    }
}

} // verus!
