use rust_tar::archive::{find_archive_data_end, scan_block, scan_from, Scan};
use rust_tar::header::EntryHeader;
use rust_tar::listing::{format_label, format_verbose_entry, permission_text};
use rust_tar::member::{
    append_entry_raw, directory_header, file_header, label_header, link_header, member_time,
    set_owner_group, shown_header, symlink_header, FileMeta, FileType,
};
use rust_tar::options::Args;
use std::io::Read;

fn meta(size: u64) -> FileMeta {
    FileMeta {
        mode: 0o100644,
        mtime: 1680350400,
        uid: 1000,
        gid: 100,
        size,
        user: Some("alice".to_string()),
        group: Some("users".to_string()),
    }
}

fn append(
    builder: &mut tar::Builder<Vec<u8>>,
    header: EntryHeader,
    name: &str,
    data: &[u8],
    link: Option<&[u8]>,
) {
    let mut header = header;
    for r in append_entry_raw(&mut header, name, link) {
        builder
            .append(tar::Header::from_byte_slice(&r.header.block), &r.payload[..])
            .unwrap();
    }
    builder
        .append(tar::Header::from_byte_slice(&header.block), data)
        .unwrap();
}

/// The members of an archive without its terminator.
fn archive_of(members: &[(&str, &[u8])]) -> Vec<u8> {
    let args = Args::new();
    let mut builder = tar::Builder::new(Vec::new());
    for (name, data) in members {
        append(
            &mut builder,
            file_header(&meta(data.len() as u64), &args),
            name,
            data,
            None,
        );
    }
    builder.get_ref().clone()
}

#[test]
fn file_headers_hold_what_is_known_of_a_file() {
    let h = file_header(&meta(1234), &Args::new());
    let t = tar::Header::from_byte_slice(&h.block);
    assert_eq!(t.size().unwrap(), 1234);
    assert_eq!(t.mode().unwrap(), 0o100644);
    assert_eq!(t.mtime().unwrap(), 1680350400);
    assert_eq!(t.uid().unwrap(), 1000);
    assert_eq!(t.gid().unwrap(), 100);
    assert_eq!(t.username().unwrap(), Some("alice"));
    assert_eq!(t.groupname().unwrap(), Some("users"));
    assert_eq!(t.entry_type(), tar::EntryType::Regular);
    assert_eq!(&h.block[124..136], b"00000002322\0");
    assert_eq!(&h.block[100..108], b"0100644\0");
    assert_eq!(&h.block[257..265], b"ustar  \0");
    assert_eq!(member_time(&h), 1680350400);
}

#[test]
fn settings_change_headers() {
    let mut args = Args::new();
    args.owner = Some("root:0".to_string());
    args.group = Some("7".to_string());
    args.mode_override = Some("go-r".to_string());
    args.switches.mtime_override = Some(60);
    let h = directory_header(&meta(99), &args);
    let t = tar::Header::from_byte_slice(&h.block);
    assert_eq!(t.entry_type(), tar::EntryType::Directory);
    assert_eq!(t.size().unwrap(), 0);
    assert_eq!(t.mode().unwrap(), 0o100600);
    assert_eq!(t.mtime().unwrap(), 60);
    assert_eq!(t.uid().unwrap(), 0);
    assert_eq!(t.gid().unwrap(), 7);
    assert_eq!(t.username().unwrap(), Some("root"));
    assert_eq!(t.groupname().unwrap(), Some("7"));
}

#[test]
fn owners_are_given_by_name_or_number() {
    let cases: [(&str, u64, &str); 5] = [
        ("bob", 1000, "bob"),
        ("bob:5", 5, "bob"),
        ("5", 5, "5"),
        (":5", 5, "alice"),
        ("bob:x", 1000, "bob"),
    ];
    for (owner, uid, name) in cases {
        let mut args = Args::new();
        let mut h = file_header(&meta(0), &args);
        args.owner = Some(owner.to_string());
        set_owner_group(&mut h, &args);
        let t = tar::Header::from_byte_slice(&h.block);
        assert_eq!(t.uid().unwrap(), uid);
        assert_eq!(t.username().unwrap(), Some(name));
    }
}

#[test]
fn names_of_owners_have_to_fit() {
    let mut args = Args::new();
    let mut h = file_header(&meta(0), &args);
    args.owner = Some("x".repeat(33));
    args.group = Some("y".repeat(32));
    set_owner_group(&mut h, &args);
    let t = tar::Header::from_byte_slice(&h.block);
    assert_eq!(t.username().unwrap(), Some("alice"));
    assert_eq!(t.groupname().unwrap(), Some("y".repeat(32).as_str()));
}

#[test]
fn large_numbers_are_written_in_binary() {
    let mut m = meta(8589934592);
    m.mtime = -1;
    let mut args = Args::new();
    args.owner = Some("x:2097152".to_string());
    let h = file_header(&m, &args);
    let t = tar::Header::from_byte_slice(&h.block);
    assert_eq!(t.size().unwrap(), 8589934592);
    assert_eq!(t.mtime().unwrap(), u64::MAX);
    assert_eq!(t.uid().unwrap(), 2097152);
    assert_eq!(h.block[124], 0x80);
    assert_eq!(&h.block[108..116], &[0x80, 0, 0, 0, 0, 0x20, 0, 0]);
}

#[test]
fn labels_have_headers_of_their_own() {
    let h = label_header();
    assert_eq!(h.block[156], b'V');
    let t = tar::Header::from_byte_slice(&h.block);
    assert_eq!((t.size().unwrap(), t.mode().unwrap()), (0, 0));
    assert_eq!(symlink_header(&Args::new()).block[156], b'2');
}

#[test]
fn short_names_need_no_record() {
    let mut h = file_header(&meta(0), &Args::new());
    let name = "n".repeat(100);
    assert!(append_entry_raw(&mut h, &name, None).is_empty());
    assert_eq!(&h.block[0..100], name.as_bytes());
    assert!(append_entry_raw(&mut h, "../up", None).is_empty());
    assert_eq!(&h.block[0..6], b"../up\0");
    assert!(h.block[6..100].iter().all(|&b| b == 0));
}

#[test]
fn headers_bear_their_checksum() {
    let mut h = file_header(&meta(5), &Args::new());
    append_entry_raw(&mut h, "name", Some(b"target"));
    let sum: u32 = h
        .block
        .iter()
        .enumerate()
        .map(|(i, &b)| if (148..156).contains(&i) { 32 } else { b as u32 })
        .sum();
    assert_eq!(&h.block[148..156], format!("{sum:07o}\0").as_bytes());
    assert_eq!(tar::Header::from_byte_slice(&h.block).cksum().unwrap(), sum);
}

/// Names, link targets and contents of the entries of an archive.
fn read_entries(bytes: &[u8]) -> Vec<(Vec<u8>, Option<Vec<u8>>, Vec<u8>)> {
    let mut archive = tar::Archive::new(bytes);
    let mut seen: Vec<(Vec<u8>, Option<Vec<u8>>, Vec<u8>)> = Vec::new();
    for entry in archive.entries().unwrap() {
        let mut entry = entry.unwrap();
        let path = entry.path_bytes().into_owned();
        let link = entry.link_name_bytes().map(|l| l.into_owned());
        let mut data = Vec::new();
        entry.read_to_end(&mut data).unwrap();
        seen.push((path, link, data));
    }
    seen
}

/// Appends every kind of entry to the bytes of an archive without terminator.
fn with_all_kinds(bytes: Vec<u8>, name: &str, target: &str) -> Vec<u8> {
    let args = Args::new();
    let mut b = tar::Builder::new(bytes);
    append(&mut b, label_header(), name, b"", None);
    append(&mut b, file_header(&meta(5), &args), name, b"hello", None);
    append(&mut b, directory_header(&meta(9), &args), name, b"", None);
    append(&mut b, symlink_header(&args), name, b"", Some(target.as_bytes()));
    append(&mut b, link_header(&meta(5), &args), name, b"", Some(target.as_bytes()));
    b.into_inner().unwrap()
}

#[test]
fn appending_keeps_what_was_there() {
    for (name, target) in [("n", "t"), (&*"n".repeat(101), &*"t".repeat(200))] {
        let first = with_all_kinds(Vec::new(), name, target);
        let end = find_archive_data_end(&first) as usize;
        assert_eq!(end + 1024, first.len());
        let second = with_all_kinds(first[..end].to_vec(), "m", "u");
        assert!(second.starts_with(&first[..end]));
        assert!(second.ends_with(&[0u8; 1024]));
        assert_eq!(
            find_archive_data_end(&second) as usize + 1024,
            second.len()
        );
        let mut expected = read_entries(&first);
        expected.extend(read_entries(&with_all_kinds(Vec::new(), "m", "u")));
        assert_eq!(read_entries(&second), expected);
        assert_eq!(expected.len(), 10);
        assert_eq!(expected[4].0, name.as_bytes());
        assert_eq!(expected[4].1.as_deref(), Some(target.as_bytes()));
        assert_eq!(expected[1].2, b"hello");
    }
}

#[test]
fn hard_links_have_no_contents() {
    let h = link_header(&meta(1234), &Args::new());
    let t = tar::Header::from_byte_slice(&h.block);
    assert_eq!(t.entry_type(), tar::EntryType::Link);
    assert_eq!(t.size().unwrap(), 0);
    assert_eq!(t.mode().unwrap(), 0o100644);
    assert_eq!(t.mtime().unwrap(), 1680350400);
    assert_eq!(t.username().unwrap(), Some("alice"));
}

#[test]
fn verbose_lines_hold_no_control_character() {
    let mut h = file_header(&meta(0), &Args::new());
    h.block[265..270].copy_from_slice(b"a\x07\n\0b");
    let line = format_verbose_entry(&h, "a\u{1}b", &Args::new());
    assert_eq!(
        line,
        "-rw-r--r-- a\\007\\012/users   0 2023-04-01 12:00 a\\001b"
    );
    h.block[156] = b'2';
    h.block[157..160].copy_from_slice(b"\x7f\x1bx");
    let line = format_verbose_entry(&h, "n", &Args::new());
    assert!(line.ends_with(" n -> \\177\\033x"));
    assert_eq!(format_label("v\t", false), "v\\011");
}

#[test]
fn long_names_are_read_back() {
    let args = Args::new();
    let name = format!("{}/{}", "d".repeat(90), "é".repeat(40));
    let target = "t".repeat(150);
    let mut builder = tar::Builder::new(Vec::new());
    append(&mut builder, file_header(&meta(3), &args), &name, b"abc", None);
    append(
        &mut builder,
        symlink_header(&args),
        &name,
        b"",
        Some(target.as_bytes()),
    );
    append(&mut builder, symlink_header(&args), "s", b"", Some(b"short"));
    let bytes = builder.into_inner().unwrap();
    let seen = read_entries(&bytes);
    assert_eq!(seen.len(), 3);
    assert_eq!(seen[0], (name.clone().into_bytes(), None, b"abc".to_vec()));
    assert_eq!(
        seen[1],
        (
            name.into_bytes(),
            Some(target.into_bytes()),
            Vec::<u8>::new()
        )
    );
    assert_eq!(
        seen[2],
        (b"s".to_vec(), Some(b"short".to_vec()), Vec::<u8>::new())
    );
}

#[test]
fn long_records_come_in_order() {
    let mut h = symlink_header(&Args::new());
    let name = "n".repeat(101);
    let link = "l".repeat(102);
    let records = append_entry_raw(&mut h, &name, Some(link.as_bytes()));
    assert_eq!(records.len(), 2);
    assert_eq!(records[0].header.block[156], b'L');
    assert_eq!(records[1].header.block[156], b'K');
    assert_eq!(records[0].payload.len(), 102);
    assert_eq!(&records[1].payload[102..], &[0]);
    assert_eq!(&records[0].header.block[..14], b"././@LongLink\0");
    assert_eq!(&h.block[0..100], &name.as_bytes()[..100]);
    assert_eq!(&h.block[157..257], &link.as_bytes()[..100]);
}

#[test]
fn members_end_at_the_blocks_of_zeros() {
    let long = "x".repeat(300);
    let members = archive_of(&[("a", b"hello"), (&long, &[7u8; 512]), ("c", b"")]);
    let mut whole = members.clone();
    whole.extend_from_slice(&[0u8; 1024]);
    assert_eq!(find_archive_data_end(&whole), members.len() as u64);
    whole.extend_from_slice(&[9u8; 700]);
    assert_eq!(find_archive_data_end(&whole), members.len() as u64);
    assert_eq!(find_archive_data_end(&members), members.len() as u64);
}

#[test]
fn archives_without_terminator_end_at_their_length() {
    assert_eq!(find_archive_data_end(&[]), 0);
    assert_eq!(find_archive_data_end(&[1u8; 100]), 100);
    assert_eq!(find_archive_data_end(&[0u8; 512]), 0);
    let members = archive_of(&[("a", b"hello")]);
    let cut = &members[..700];
    assert_eq!(find_archive_data_end(cut), 700);
    let mut partial = members.clone();
    partial.extend_from_slice(&[0u8; 100]);
    assert_eq!(find_archive_data_end(&partial), partial.len() as u64);
}

#[test]
fn scanning_asks_for_one_block_after_the_other() {
    let members = archive_of(&[("a", b"hello"), ("b", b"")]);
    let len = members.len() as u64 + 1024;
    assert_eq!(scan_from(0, len), Scan::ReadAt(0));
    assert_eq!(scan_block(0, len, &members[..512]), Scan::ReadAt(1024));
    assert_eq!(scan_block(1024, len, &members[1024..1536]), Scan::ReadAt(1536));
    assert_eq!(scan_block(1536, len, &[0u8; 512]), Scan::End(1536));
    assert_eq!(scan_from(0, 511), Scan::End(511));
    assert_eq!(scan_from(u64::MAX, 5), Scan::End(5));
}

#[test]
fn sizes_that_cannot_be_read_count_as_nothing() {
    let mut block = [b'x'; 512];
    block[124..136].copy_from_slice(b"not a number");
    assert_eq!(scan_block(0, 2048, &block), Scan::ReadAt(512));
    block[124..136].copy_from_slice(b"  01000   \0\0");
    assert_eq!(scan_block(0, 2048, &block), Scan::ReadAt(1024));
    block[124] = 0xff;
    assert_eq!(scan_block(0, 2048, &block), Scan::ReadAt(512));
    block[124..136].copy_from_slice(b"777777777777");
    assert_eq!(scan_block(0, 2048, &block), Scan::End(2048));
}

#[test]
fn permissions_are_shown_in_letters() {
    let text = |flag: u8, mode: u32| permission_text(flag, mode).iter().collect::<String>();
    assert_eq!(text(b'0', 0o644), "-rw-r--r--");
    assert_eq!(text(b'5', 0o1777), "drwxrwxrwt");
    assert_eq!(text(b'5', 0o1776), "drwxrwxrwT");
    assert_eq!(text(b'2', 0o777), "lrwxrwxrwx");
    assert_eq!(text(b'1', 0o6755), "hrwsr-sr-x");
    assert_eq!(text(b'3', 0o6644), "crwSr-Sr--");
    assert_eq!(text(b'4', 0), "b---------");
    assert_eq!(text(b'6', 0o010), "p-----x---");
}

#[test]
fn verbose_lines_show_a_member() {
    let mut args = Args::new();
    let h = file_header(&meta(1234), &args);
    assert_eq!(
        format_verbose_entry(&h, "dir/name", &args),
        "-rw-r--r-- alice/users       1234 2023-04-01 12:00 dir/name"
    );
    args.switches.numeric_owner = true;
    assert_eq!(
        format_verbose_entry(&h, "n", &args),
        "-rw-r--r-- 1000/100          1234 2023-04-01 12:00 n"
    );
}

#[test]
fn verbose_lines_show_link_targets() {
    let args = Args::new();
    let mut h = symlink_header(&args);
    append_entry_raw(&mut h, "s", Some(b"target"));
    assert_eq!(
        format_verbose_entry(&h, "s", &args),
        "l--------- 0/0               0 1970-01-01 00:00 s -> target"
    );
    h.block[156] = b'1';
    assert_eq!(
        format_verbose_entry(&h, "s", &args),
        "h--------- 0/0               0 1970-01-01 00:00 s link to target"
    );
    append_entry_raw(&mut h, "s", Some(&[0xff]));
    assert_eq!(
        format_verbose_entry(&h, "s", &args),
        "h--------- 0/0               0 1970-01-01 00:00 s link to \u{fffd}"
    );
}

#[test]
fn wide_owners_are_not_cut() {
    let mut args = Args::new();
    args.owner = Some("a".repeat(20));
    let mut h = file_header(&meta(1), &args);
    h.block[136..148].copy_from_slice(b"garbage     ");
    assert_eq!(
        format_verbose_entry(&h, "n", &args),
        format!("-rw-r--r-- {}/users 1 1970-01-01 00:00 n", "a".repeat(20))
    );
}

#[test]
fn sparse_members_show_their_real_size() {
    let args = Args::new();
    let mut h = file_header(&meta(512), &args);
    h.block[156] = b'S';
    h.block[483..495].copy_from_slice(b"00000010000\0");
    assert_eq!(
        format_verbose_entry(&h, "n", &args),
        "-rw-r--r-- alice/users       4096 2023-04-01 12:00 n"
    );
}

#[test]
fn labels_are_shown_as_volume_headers() {
    assert_eq!(format_label("vol", false), "vol");
    assert_eq!(
        format_label("vol", true),
        format!("V--------- 0/0 {:>13} 1970-01-01 00:00 vol--Volume Header--", 0)
    );
}

#[test]
fn reports_show_the_mode_on_disk() {
    let mut args = Args::new();
    args.mode_override = Some("a-r".to_string());
    let h = shown_header(&Some(meta(7)), FileType::Other, &args);
    assert_eq!(
        format_verbose_entry(&h, "n", &args),
        "-rw-r--r-- alice/users       7 2023-04-01 12:00 n"
    );
    let h = shown_header(&Some(meta(7)), FileType::Directory, &args);
    assert_eq!(
        format_verbose_entry(&h, "n/", &args),
        "drw-r--r-- alice/users       0 2023-04-01 12:00 n/"
    );
    let h = shown_header(&Some(meta(7)), FileType::Symlink, &args);
    assert_eq!(h.block[156], b'2');
    let h = shown_header(&None, FileType::Other, &args);
    assert_eq!(
        format_verbose_entry(&h, "n", &args),
        "---------- 0/0               0 1970-01-01 00:00 n"
    );
}
