use minidump_modules::dump_buf::DumpBuf;
use minidump_modules::load_commands::{parse_mach_header, LoadCommands};
use minidump_modules::module_list::{
    pack_version, parse_module_record, read_loaded_modules, read_module, write_module_list,
    DirectoryEntry, ModuleInput, MODULE_LIST_STREAM,
};
use minidump_modules::task_dumper::{ImageInfo, TaskDumpError};

fn push_u32(v: &mut Vec<u8>, x: u32) {
    for b in x.to_le_bytes() {
        v.push(b);
    }
}

fn push_u64(v: &mut Vec<u8>, x: u64) {
    for b in x.to_le_bytes() {
        v.push(b);
    }
}

fn read_u32(b: &[u8], off: usize) -> u32 {
    u32::from_le_bytes([b[off], b[off + 1], b[off + 2], b[off + 3]])
}

fn segment_cmd(name: &[u8], vm_addr: u64, vm_size: u64, file_off: u64, file_size: u64) -> Vec<u8> {
    let mut v = Vec::new();
    push_u32(&mut v, 0x19);
    push_u32(&mut v, 72);
    let mut seg_name = [0u8; 16];
    seg_name[..name.len()].copy_from_slice(name);
    v.extend_from_slice(&seg_name);
    push_u64(&mut v, vm_addr);
    push_u64(&mut v, vm_size);
    push_u64(&mut v, file_off);
    push_u64(&mut v, file_size);
    while v.len() < 72 {
        v.push(0);
    }
    v
}

fn dylib_cmd(version: u32) -> Vec<u8> {
    let mut v = Vec::new();
    push_u32(&mut v, 0xd);
    push_u32(&mut v, 24);
    push_u32(&mut v, 24);
    push_u32(&mut v, 0);
    push_u32(&mut v, version);
    push_u32(&mut v, 0);
    v
}

fn uuid_cmd(uuid: &[u8; 16]) -> Vec<u8> {
    let mut v = Vec::new();
    push_u32(&mut v, 0x1b);
    push_u32(&mut v, 24);
    v.extend_from_slice(uuid);
    v
}

fn other_cmd(tag: u32, size: u32) -> Vec<u8> {
    let mut v = Vec::new();
    push_u32(&mut v, tag);
    push_u32(&mut v, size);
    while (v.len() as u32) < size {
        v.push(0xee);
    }
    v
}

fn image_input(
    load_address: u64,
    with_dylib: Option<u32>,
    uuid: &[u8; 16],
    path: &[u8],
) -> ModuleInput {
    let mut buffer = Vec::new();
    let mut count = 0u32;
    buffer.extend_from_slice(&other_cmd(0x32, 16));
    count += 1;
    buffer.extend_from_slice(&segment_cmd(b"__PAGEZERO\0", 0, 0x1000, 0, 0));
    count += 1;
    buffer.extend_from_slice(&segment_cmd(b"__TEXT\0", 0x1000, 0x2000, 0, 0x500));
    count += 1;
    if let Some(v) = with_dylib {
        buffer.extend_from_slice(&dylib_cmd(v));
        count += 1;
    }
    buffer.extend_from_slice(&uuid_cmd(uuid));
    count += 1;
    ModuleInput {
        image: ImageInfo { load_address, file_path: 0, file_mod_date: 0 },
        load_commands: Some(LoadCommands { buffer, count }),
        file_path: path.to_vec(),
    }
}

#[test]
fn version_packing_example() {
    let (hi, lo) = pack_version(0x00020105);
    assert_eq!(hi, 0x00000002);
    assert_eq!(lo, 0x00010005);
}

#[test]
fn version_packing_more_values() {
    assert_eq!(pack_version(0), (0, 0));
    assert_eq!(pack_version(0xFFFFFFFF), (0xFFFF, 0x00FF00FF));
    assert_eq!(pack_version(0x12345678), (0x1234, 0x00560078));
    assert_eq!(pack_version(0x00010000), (1, 0));
}

#[test]
fn mach_header_magic_is_checked() {
    let mut good = Vec::new();
    push_u32(&mut good, 0xfeedfacf);
    push_u32(&mut good, 0x0100000c);
    push_u32(&mut good, 0);
    push_u32(&mut good, 2);
    push_u32(&mut good, 17);
    push_u32(&mut good, 1234);
    push_u32(&mut good, 0);
    push_u32(&mut good, 0);
    let h = parse_mach_header(&good).unwrap();
    assert_eq!(h.num_commands, 17);
    assert_eq!(h.size_commands, 1234);

    let mut bad = good.clone();
    bad[0] = 0xce;
    bad[3] = 0xfe;
    assert!(matches!(parse_mach_header(&bad), Err(TaskDumpError::InvalidMachHeader)));
}

#[test]
fn read_module_builds_full_record() {
    let uuid = [9u8, 8, 7, 6, 5, 4, 3, 2, 1, 0, 11, 12, 13, 14, 15, 16];
    let inp = image_input(0x5000, Some(0x00020105), &uuid, b"/usr/lib/libfoo.dylib");
    let mut buf = DumpBuf::new();
    let lc = inp.load_commands.as_ref().unwrap();
    let (m, is_main) = read_module(&inp.image, lc, &inp.file_path, &mut buf).unwrap();
    assert!(!is_main);
    // The text segment maps the header (file offset 0, file size not
    // 0), so the base slides to the load address.
    assert_eq!(m.base_of_image, 0x5000);
    assert_eq!(m.size_of_image, 0x2000);
    assert_eq!(m.version_signature, 0xFEEF04BD);
    assert_eq!(m.version_struct_version, 0x00010000);
    assert_eq!(m.version_file_hi, 2);
    assert_eq!(m.version_file_lo, 0x00010005);
    let name = b"libfoo.dylib";
    assert_eq!(m.cv_record_size as usize, 24 + name.len() + 1);
    // Debug record layout at its reference: signature, unique id, age,
    // then the narrow display name and one zero byte.
    let bytes = buf.bytes();
    let cv = m.cv_record_rva as usize;
    assert_eq!(read_u32(bytes, cv), 0x53445352);
    assert_eq!(&bytes[cv + 4..cv + 20], &uuid);
    assert_eq!(read_u32(bytes, cv + 20), 0);
    assert_eq!(&bytes[cv + 24..cv + 24 + name.len()], name);
    assert_eq!(bytes[cv + 24 + name.len()], 0);
    // The path record at the name reference: length, then the bytes.
    let nr = m.module_name_rva as usize;
    assert_eq!(read_u32(bytes, nr) as usize, inp.file_path.len());
    assert_eq!(&bytes[nr + 4..nr + 4 + inp.file_path.len()], b"/usr/lib/libfoo.dylib");
}

#[test]
fn read_module_without_identification_is_main() {
    let uuid = [1u8; 16];
    let inp = image_input(0x4000, None, &uuid, b"/bin/app");
    let mut buf = DumpBuf::new();
    let lc = inp.load_commands.as_ref().unwrap();
    let (m, is_main) = read_module(&inp.image, lc, &inp.file_path, &mut buf).unwrap();
    assert!(is_main);
    assert_eq!(m.version_signature, 0);
    assert_eq!(m.version_struct_version, 0);
    assert_eq!(m.version_file_hi, 0);
    assert_eq!(m.version_file_lo, 0);
}

#[test]
fn read_module_no_slide_when_header_not_in_segment() {
    let uuid = [2u8; 16];
    let mut inp = image_input(0x9000, Some(1), &uuid, b"x");
    // Rebuild the text segment with a nonzero file offset: the header
    // is not inside it, so no slide applies.
    let mut buffer = Vec::new();
    buffer.extend_from_slice(&segment_cmd(b"__TEXT\0", 0x1000, 0x2000, 0x40, 0x500));
    buffer.extend_from_slice(&uuid_cmd(&uuid));
    buffer.extend_from_slice(&dylib_cmd(1));
    inp.load_commands = Some(LoadCommands { buffer, count: 3 });
    let mut buf = DumpBuf::new();
    let lc = inp.load_commands.as_ref().unwrap();
    let (m, _) = read_module(&inp.image, lc, &inp.file_path, &mut buf).unwrap();
    assert_eq!(m.base_of_image, 0x1000);
}

#[test]
fn read_module_missing_required_fields() {
    let uuid = [3u8; 16];
    // No text segment.
    let mut buffer = Vec::new();
    buffer.extend_from_slice(&segment_cmd(b"__DATA\0", 0x1000, 0x2000, 0, 0x500));
    buffer.extend_from_slice(&uuid_cmd(&uuid));
    let img = ImageInfo { load_address: 0x1000, file_path: 0, file_mod_date: 0 };
    let lc = LoadCommands { buffer, count: 2 };
    let mut buf = DumpBuf::new();
    let path = Vec::new();
    assert!(matches!(
        read_module(&img, &lc, &path, &mut buf),
        Err(TaskDumpError::MissingRequiredField)
    ));
    assert_eq!(buf.bytes().len(), 0);
    // No unique id.
    let mut buffer = Vec::new();
    buffer.extend_from_slice(&segment_cmd(b"__TEXT\0", 0x1000, 0x2000, 0, 0x500));
    let lc = LoadCommands { buffer, count: 1 };
    assert!(matches!(
        read_module(&img, &lc, &path, &mut buf),
        Err(TaskDumpError::MissingRequiredField)
    ));
}

#[test]
fn malformed_command_size_stops_the_scan() {
    // A command whose declared size cannot stride forward ends the
    // scan; nothing after it is reached, so the required fields are
    // missing and the image is omitted.
    let uuid = [10u8; 16];
    let mut buffer = Vec::new();
    push_u32(&mut buffer, 0x77);
    push_u32(&mut buffer, 0);
    buffer.extend_from_slice(&segment_cmd(b"__TEXT\0", 0x1000, 0x2000, 0, 0x500));
    buffer.extend_from_slice(&uuid_cmd(&uuid));
    let img = ImageInfo { load_address: 0x1000, file_path: 0, file_mod_date: 0 };
    let lc = LoadCommands { buffer, count: 3 };
    let mut buf = DumpBuf::new();
    let path = Vec::new();
    assert!(matches!(
        read_module(&img, &lc, &path, &mut buf),
        Err(TaskDumpError::MissingRequiredField)
    ));
}

#[test]
fn command_order_does_not_matter() {
    // The identification and unique-id commands may precede the text
    // segment; the scan still finds all three.
    let uuid = [11u8; 16];
    let mut buffer = Vec::new();
    buffer.extend_from_slice(&dylib_cmd(0x00030201));
    buffer.extend_from_slice(&uuid_cmd(&uuid));
    buffer.extend_from_slice(&segment_cmd(b"__TEXT\0", 0x2000, 0x3000, 0, 0x100));
    let img = ImageInfo { load_address: 0x8000, file_path: 0, file_mod_date: 0 };
    let lc = LoadCommands { buffer, count: 3 };
    let mut buf = DumpBuf::new();
    let path = Vec::new();
    let (m, is_main) = read_module(&img, &lc, &path, &mut buf).unwrap();
    assert!(!is_main);
    assert_eq!(m.base_of_image, 0x8000);
    assert_eq!(m.size_of_image, 0x3000);
    assert_eq!(m.version_file_hi, 3);
    assert_eq!(m.version_file_lo, 0x00020001);
}

#[test]
fn read_module_empty_path_uses_placeholder() {
    let uuid = [4u8; 16];
    let inp = image_input(0x4000, Some(5), &uuid, b"");
    let mut buf = DumpBuf::new();
    let lc = inp.load_commands.as_ref().unwrap();
    let (m, _) = read_module(&inp.image, lc, &inp.file_path, &mut buf).unwrap();
    let bytes = buf.bytes();
    let cv = m.cv_record_rva as usize;
    assert_eq!(&bytes[cv + 24..cv + 33], b"<Unknown>");
    assert_eq!(m.cv_record_size as usize, 24 + 9 + 1);
}

#[test]
fn read_module_size_of_image_truncates() {
    let uuid = [5u8; 16];
    let mut buffer = Vec::new();
    buffer.extend_from_slice(&segment_cmd(b"__TEXT\0", 0x1000, 0x1_0000_0002, 0, 0x500));
    buffer.extend_from_slice(&uuid_cmd(&uuid));
    let img = ImageInfo { load_address: 0x1000, file_path: 0, file_mod_date: 0 };
    let lc = LoadCommands { buffer, count: 2 };
    let mut buf = DumpBuf::new();
    let path = Vec::new();
    let (m, _) = read_module(&img, &lc, &path, &mut buf).unwrap();
    assert_eq!(m.size_of_image, 2);
}

#[test]
fn main_executable_is_ordered_first() {
    // Main executable at address A, others at B < A < C: the output
    // order is main, then B, then C.
    let uuid = [6u8; 16];
    let a = image_input(0x3000, None, &uuid, b"/bin/main");
    let b = image_input(0x1000, Some(1), &uuid, b"/lib/b.dylib");
    let c = image_input(0x5000, Some(2), &uuid, b"/lib/c.dylib");
    let inputs = vec![b, a, c];
    let mut buf = DumpBuf::new();
    let mods = read_loaded_modules(&inputs, &mut buf).unwrap();
    assert_eq!(mods.len(), 3);
    assert_eq!(mods[0].base_of_image, 0x3000);
    assert_eq!(mods[1].base_of_image, 0x1000);
    assert_eq!(mods[2].base_of_image, 0x5000);
}

#[test]
fn missing_main_executable_fails_enumeration() {
    // Every image carries an identification command, however many
    // valid images there are: the whole enumeration fails.
    let uuid = [7u8; 16];
    let inputs = vec![
        image_input(0x1000, Some(1), &uuid, b"/lib/a.dylib"),
        image_input(0x2000, Some(2), &uuid, b"/lib/b.dylib"),
        image_input(0x3000, Some(3), &uuid, b"/lib/c.dylib"),
    ];
    let mut buf = DumpBuf::new();
    assert!(matches!(
        read_loaded_modules(&inputs, &mut buf),
        Err(TaskDumpError::MissingMainExecutable)
    ));
}

#[test]
fn per_image_failure_omits_only_that_image() {
    let uuid = [8u8; 16];
    let bad = ModuleInput {
        image: ImageInfo { load_address: 0x1000, file_path: 0, file_mod_date: 0 },
        load_commands: None,
        file_path: Vec::new(),
    };
    let good = image_input(0x2000, None, &uuid, b"/bin/main");
    let inputs = vec![bad, good];
    let mut buf = DumpBuf::new();
    let mods = read_loaded_modules(&inputs, &mut buf).unwrap();
    assert_eq!(mods.len(), 1);
    assert_eq!(mods[0].base_of_image, 0x2000);
}

#[test]
fn module_list_stream_round_trip() {
    // A record built from a synthetic image, serialized into the
    // buffer, then reparsed against the documented layout.
    let uuid = [0xAAu8, 1, 2, 3, 4, 5, 6, 7, 8, 9, 10, 11, 12, 13, 14, 15];
    let inp = image_input(0x7000, None, &uuid, b"/apps/thing");
    let inputs = Some(vec![inp]);
    let mut buf = DumpBuf::new();
    let dirent = write_module_list(&inputs, &mut buf).unwrap();
    assert_eq!(dirent.stream_type, MODULE_LIST_STREAM);
    let bytes = buf.bytes();
    let rva = dirent.rva as usize;
    assert_eq!(dirent.data_size as usize, 4 + 108);
    assert_eq!(read_u32(bytes, rva), 1);
    let m = parse_module_record(bytes, rva + 4);
    assert_eq!(m.base_of_image, 0x7000);
    assert_eq!(m.size_of_image, 0x2000);
    assert_eq!(m.version_signature, 0);
    assert_eq!(m.version_file_hi, 0);
    assert_eq!(m.version_file_lo, 0);
    let cv = m.cv_record_rva as usize;
    assert_eq!(read_u32(bytes, cv), 0x53445352);
    assert_eq!(&bytes[cv + 4..cv + 20], &uuid);
    let name = b"thing";
    assert_eq!(m.cv_record_size as usize, 24 + name.len() + 1);
    assert_eq!(&bytes[cv + 24..cv + 24 + name.len()], name);
    assert_eq!(bytes[cv + 24 + name.len()], 0);
}

#[test]
fn module_list_stream_empty_when_images_unreadable() {
    let mut buf = DumpBuf::new();
    let dirent = write_module_list(&None, &mut buf).unwrap();
    assert_eq!(dirent, DirectoryEntry { stream_type: MODULE_LIST_STREAM, rva: 0, data_size: 4 });
    assert_eq!(read_u32(buf.bytes(), 0), 0);
}

#[test]
fn module_list_stream_fails_without_main_executable() {
    // A dump lacking an identifiable main binary is unreliable: the
    // whole enumeration fails, even though every image was valid.
    let uuid = [9u8; 16];
    let inputs = Some(vec![image_input(0x1000, Some(1), &uuid, b"/lib/only.dylib")]);
    let mut buf = DumpBuf::new();
    let r = write_module_list(&inputs, &mut buf);
    assert!(matches!(r, Err(TaskDumpError::MissingMainExecutable)));
    // The walk's payloads were appended, but no count header follows.
    let path = b"/lib/only.dylib";
    let name = b"only.dylib";
    assert_eq!(buf.bytes().len(), 4 + path.len() + 24 + name.len() + 1);
}
