use hotline::hfs::cap::{
    decode_cap_info, encode_cap_info, CAP_CDATE, CAP_DMAGIC, CAP_MAGIC, CAP_MAGIC1, CAP_MDATE,
    CAP_OFF_COMLN, CAP_OFF_COMNT, CAP_OFF_CTIME, CAP_OFF_DATEMAGIC, CAP_OFF_DATEVALID,
    CAP_OFF_MAGIC, CAP_OFF_MAGIC1, CAP_OFF_VERSION, CAP_VERSION, SIZEOF_CAP_INFO,
};
use hotline::hfs::double::{
    fresh_dbl_descrs, read_dbl_descrs, validate_descrs, wanted, Descr, SidecarWrite, DBL_MAGIC,
    HDR_COMNT, HDR_DATES, HDR_FINFO, HDR_RSRC, HDR_VERSION_1, HDR_VERSION_2, HEAD_LEN,
};
use hotline::hfs::fork::{
    is_absent, resource_len, resource_open, ResourceFork, ResourceOpenOptions, SeekTo,
};
use hotline::hfs::{
    comment_len, comment_write, finderinfo_path, header_time, hfsinfo_read, hfsinfo_write,
    resource_path, type_creator, Config, ErrorKind, Fork, HfsError, HfsInfo, Stored, MAX_COMMENT,
};
use std::collections::BTreeMap;

/// Files by their paths.
struct Disk(BTreeMap<Vec<u8>, Vec<u8>>);

impl Disk {
    fn new() -> Disk {
        Disk(BTreeMap::new())
    }

    fn sidecar(&self, path: &[u8]) -> Option<&Vec<u8>> {
        self.0.get(&finderinfo_path(path, b'/').unwrap())
    }

    fn own_file(&self, path: &[u8]) -> Option<u64> {
        self.0.get(&resource_path(path, b'/').unwrap()).map(|b| b.len() as u64)
    }

    fn table(&self, path: &[u8]) -> Result<Option<Vec<Descr>>, HfsError> {
        match self.sidecar(path) {
            Some(b) => read_dbl_descrs(&b[..b.len().min(HEAD_LEN)], b.len() as u64),
            None => Ok(None),
        }
    }

    fn stored(&self, cfg: &Config, path: &[u8]) -> Stored {
        let bytes = match self.sidecar(path) {
            Some(b) => b,
            None => return Stored::Missing,
        };
        if cfg.fork == Fork::Cap {
            return Stored::Record(bytes.clone());
        }
        match self.table(path) {
            Ok(Some(descrs)) => {
                let pieces = descrs
                    .iter()
                    .map(|d| {
                        let at = d.offset as usize;
                        bytes.get(at..at + wanted(d)).map(|p| p.to_vec())
                    })
                    .collect();
                Stored::Container { descrs, pieces }
            }
            _ => Stored::Missing,
        }
    }

    fn write(&mut self, cfg: &Config, path: &[u8], fi: &HfsInfo) -> Result<(), HfsError> {
        let table = if cfg.fork == Fork::Cap { None } else { self.table(path)? };
        let name = finderinfo_path(path, b'/')?;
        let before = self.0.get(&name).cloned().unwrap_or_default();
        let plan = hfsinfo_write(cfg, table.as_deref(), before.len() as u64, fi)?;
        let (mut after, edits) = match plan {
            SidecarWrite::InPlace(edits) => (before, edits),
            SidecarWrite::Rewrite { copies, edits } => {
                let mut scratch = Vec::new();
                for c in copies {
                    let (from, len) = (c.from as usize, c.len as usize);
                    put(&mut scratch, c.to as usize, &before[from..from + len]);
                }
                (scratch, edits)
            }
        };
        for e in edits {
            put(&mut after, e.offset as usize, &e.data);
        }
        self.0.insert(name, after);
        Ok(())
    }

    fn read(&self, cfg: &Config, path: &[u8], modified: Option<i64>) -> HfsInfo {
        let own = self.own_file(path).unwrap_or(0);
        hfsinfo_read(cfg, path, &self.stored(cfg, path), own, modified)
    }

    fn comment(&mut self, cfg: &Config, path: &[u8], comment: &[u8]) {
        let name = finderinfo_path(path, b'/').unwrap();
        let mut bytes = self.0.get(&name).cloned().unwrap_or_default();
        if let Some(record) = comment_write(cfg, path, &bytes, comment) {
            put(&mut bytes, 0, &record);
            self.0.insert(name, bytes);
        }
    }
}

fn put(file: &mut Vec<u8>, at: usize, data: &[u8]) {
    if file.len() < at + data.len() {
        file.resize(at + data.len(), 0);
    }
    file[at..at + data.len()].copy_from_slice(data);
}

/// Writes all of the data through a fork; the file is at `pos`.
fn write_all(fork: &mut ResourceFork, file: &mut Vec<u8>, pos: &mut u64, data: &[u8]) {
    let (seek, n) = fork.start_write(data.len()).unwrap();
    assert_eq!(n, data.len());
    if let Some(p) = seek {
        *pos = p;
    }
    put(file, *pos as usize, data);
    *pos += n as u64;
    fork.did_write(n);
}

/// Reads a fork to its end; the file is at `pos`.
fn read_to_end(fork: &mut ResourceFork, file: &[u8], pos: u64) -> Vec<u8> {
    let n = fork.read_limit(4096).unwrap();
    fork.did_read(n);
    assert_eq!(fork.read_limit(4096).unwrap(), 0);
    file[pos as usize..pos as usize + n].to_vec()
}

fn sample() -> HfsInfo {
    HfsInfo {
        type_creator: *b"TEXTMSIE",
        create_time: [0x11, 0x22, 0x33, 0x44],
        modify_time: [0x55, 0x66, 0x77, 0x88],
        rsrclen: 0,
        comment: b"a finder comment".to_vec(),
    }
}

fn config(fork: Fork) -> Config {
    Config { fork, ..Config::default() }
}

#[test]
fn sidecar_paths() {
    assert_eq!(
        finderinfo_path(b"/home/x/file.bin", b'/').unwrap(),
        b"/home/x/file.bin.fndrinfo"
    );
    assert_eq!(
        resource_path(b"/home/x/file.bin", b'/').unwrap(),
        b"/home/x/file.bin.rsrc"
    );
    assert_eq!(finderinfo_path(b"bare", b'/').unwrap(), b"./bare.fndrinfo");
}

#[test]
fn path_too_long_is_error() {
    let long = "a".repeat(4090);
    assert!(finderinfo_path(long.as_bytes(), b'/').is_err());
}

#[test]
fn cap_record_golden_bytes() {
    let rec = encode_cap_info(&sample());
    assert_eq!(rec.len(), SIZEOF_CAP_INFO);
    assert_eq!(rec[CAP_OFF_MAGIC1], CAP_MAGIC1);
    assert_eq!(rec[CAP_OFF_VERSION], CAP_VERSION);
    assert_eq!(rec[CAP_OFF_MAGIC], CAP_MAGIC);
    assert_eq!(rec[CAP_OFF_DATEMAGIC], CAP_DMAGIC);
    assert_eq!(rec[CAP_OFF_DATEVALID], CAP_MDATE | CAP_CDATE);
    assert_eq!(&rec[0..8], b"TEXTMSIE");
    assert_eq!(
        &rec[CAP_OFF_CTIME..CAP_OFF_CTIME + 4],
        &[0x11, 0x22, 0x33, 0x44]
    );
    assert_eq!(
        &rec[CAP_OFF_CTIME + 4..CAP_OFF_CTIME + 8],
        &[0x55, 0x66, 0x77, 0x88]
    );
    assert_eq!(rec[CAP_OFF_COMLN] as usize, sample().comment.len());
    assert_eq!(
        &rec[CAP_OFF_COMNT..CAP_OFF_COMNT + sample().comment.len()],
        sample().comment.as_slice()
    );
}

#[test]
fn cap_record_codec_is_available_without_ambient_path_access() {
    let encoded = encode_cap_info(&sample());
    let decoded = decode_cap_info(&encoded).unwrap();
    assert_eq!(decoded.type_creator, sample().type_creator);
    assert_eq!(decoded.create_time, sample().create_time);
    assert_eq!(decoded.modify_time, sample().modify_time);
    assert_eq!(decoded.comment, sample().comment);

    let mut invalid = encoded;
    invalid[CAP_OFF_MAGIC] = 0;
    assert!(decode_cap_info(&invalid).is_none());
}

#[test]
fn cap_roundtrip() {
    let cfg = Config::default();
    let mut disk = Disk::new();
    disk.write(&cfg, b"/t/doc.bin", &sample()).unwrap();
    let got = disk.read(&cfg, b"/t/doc.bin", None);
    assert_eq!(got.type_creator, sample().type_creator);
    assert_eq!(got.create_time, sample().create_time);
    assert_eq!(got.modify_time, sample().modify_time);
    assert_eq!(got.comment, sample().comment);
}

#[test]
fn cap_missing_sidecar_falls_back_to_suffix_and_mtime() {
    let cfg = Config::default();
    let disk = Disk::new();
    let got = disk.read(&cfg, b"/t/art.png", Some(1_700_000_000));
    assert_eq!(&got.type_creator, b"PNGfGKON");
    assert_ne!(got.create_time, [0; 4]);
    assert_eq!(got.create_time, got.modify_time);
    assert_eq!(got.create_time, (1_700_000_000u32 - 946_684_800).to_be_bytes());
}

#[test]
fn cap_config_comment_fallback() {
    let cfg = Config {
        comment: Some(b"default comment".to_vec()),
        ..Config::default()
    };
    let disk = Disk::new();
    let got = disk.read(&cfg, b"/t/x.bin", None);
    assert_eq!(got.comment, b"default comment");
    assert_eq!(comment_len(&cfg, &Stored::Missing), 15);
}

#[test]
fn cap_comment_len_and_write() {
    let cfg = Config::default();
    let mut disk = Disk::new();
    disk.comment(&cfg, b"/t/c.bin", b"hello");
    assert_eq!(comment_len(&cfg, &disk.stored(&cfg, b"/t/c.bin")), 5);
    let got = disk.read(&cfg, b"/t/c.bin", None);
    assert_eq!(got.comment, b"hello");
}

#[test]
fn cap_comment_write_fresh_record_sets_magic_bytes() {
    let cfg = Config::default();
    let mut disk = Disk::new();
    disk.comment(&cfg, b"/t/dm.bin", b"c");
    let bytes = disk.sidecar(b"/t/dm.bin").unwrap();
    assert_eq!(bytes[CAP_OFF_MAGIC1], CAP_MAGIC1);
    assert_eq!(bytes[CAP_OFF_MAGIC], CAP_MAGIC);
    assert_eq!(bytes[CAP_OFF_DATEMAGIC], CAP_DMAGIC);
}

#[test]
fn cap_comment_clamped_to_max() {
    let cfg = Config::default();
    let mut disk = Disk::new();
    let big = vec![b'x'; 500];
    disk.comment(&cfg, b"/t/big.bin", &big);
    assert_eq!(comment_len(&cfg, &disk.stored(&cfg, b"/t/big.bin")), MAX_COMMENT);
}

#[test]
fn cap_resource_fork() {
    let mut write_opts = ResourceOpenOptions::new();
    write_opts.write(true).create(true).truncate(true);
    assert!(write_opts.file_options(false).is_ok());
    let mut file = Vec::new();
    let (mut w, mut pos) = resource_open(Fork::Cap, &[], 0, &write_opts).unwrap().unwrap();
    write_all(&mut w, &mut file, &mut pos, b"RESOURCEDATA");

    assert_eq!(resource_len(Fork::Cap, Some(file.len() as u64), None), 12);
    let mut read_opts = ResourceOpenOptions::new();
    read_opts.read(true);
    let (mut r, pos) = resource_open(Fork::Cap, &[], 12, &read_opts).unwrap().unwrap();
    assert_eq!(read_to_end(&mut r, &file, pos), b"RESOURCEDATA");
}

#[test]
fn cap_resource_open_write_does_not_truncate() {
    let mut file = b"ORIGINAL-CONTENT".to_vec();
    let mut opts = ResourceOpenOptions::new();
    opts.write(true);
    let (mut f, _) = resource_open(Fork::Cap, &[], 16, &opts).unwrap().unwrap();
    let (logical, mut pos) = f.seek_to(SeekTo::Start(0)).unwrap();
    f.did_seek(logical);
    write_all(&mut f, &mut file, &mut pos, b"NEW");
    assert_eq!(file, b"NEWGINAL-CONTENT");
    assert_eq!(f.len(), 16);
}

#[test]
fn cap_resource_open_absent_is_none() {
    let disk = Disk::new();
    assert!(is_absent(disk.own_file(b"/t/none.bin").is_none(), true, true));
    assert_eq!(resource_len(Fork::Cap, disk.own_file(b"/t/none.bin"), None), 0);
    assert_eq!(resource_len(Fork::Double, None, None), 0);
}

#[test]
fn cap_type_creator_prefers_sidecar() {
    let cfg = Config::default();
    let mut disk = Disk::new();
    disk.write(&cfg, b"/t/thing.png", &sample()).unwrap();
    assert_eq!(
        &type_creator(b"/t/thing.png", &disk.stored(&cfg, b"/t/thing.png")),
        b"TEXTMSIE"
    );
    assert_eq!(
        &type_creator(b"/t/other.gif", &disk.stored(&cfg, b"/t/other.gif")),
        b"GIFfGKON"
    );
}

#[test]
fn appledouble_header_golden_bytes() {
    let cfg = config(Fork::Double);
    let mut disk = Disk::new();
    disk.write(&cfg, b"/t/ad.bin", &sample()).unwrap();
    let bytes = disk.sidecar(b"/t/ad.bin").unwrap();
    assert_eq!(&bytes[0..4], DBL_MAGIC.to_be_bytes());
    assert_eq!(&bytes[4..8], HDR_VERSION_2.to_be_bytes());
    assert_eq!(u16::from_be_bytes([bytes[24], bytes[25]]), 4);
}

#[test]
fn netatalk_uses_version_1() {
    let cfg = config(Fork::Netatalk);
    let mut disk = Disk::new();
    disk.write(&cfg, b"/t/na.bin", &sample()).unwrap();
    let bytes = disk.sidecar(b"/t/na.bin").unwrap();
    assert_eq!(&bytes[4..8], HDR_VERSION_1.to_be_bytes());
}

#[test]
fn appledouble_updates_existing_comment() {
    let cfg = config(Fork::Double);
    let mut disk = Disk::new();
    disk.write(&cfg, b"/t/upd.bin", &sample()).unwrap();
    let mut fi2 = sample();
    fi2.comment = b"XXXXXXXXXXXXXXXX".to_vec();
    disk.write(&cfg, b"/t/upd.bin", &fi2).unwrap();
    assert_eq!(disk.read(&cfg, b"/t/upd.bin", None).comment, b"XXXXXXXXXXXXXXXX");
}

#[test]
fn appledouble_resource_fork_roundtrip() {
    let cfg = config(Fork::Double);
    let path = b"/t/adr.bin";
    let mut disk = Disk::new();
    let mut fi = sample();
    fi.rsrclen = 0;
    disk.write(&cfg, path, &fi).unwrap();

    let mut wopts = ResourceOpenOptions::new();
    wopts.read(true).write(true);
    let table = disk.table(path).unwrap().unwrap();
    let name = finderinfo_path(path, b'/').unwrap();
    let mut file = disk.0.remove(&name).unwrap();
    let (mut w, mut pos) =
        resource_open(Fork::Double, &table, file.len() as u64, &wopts).unwrap().unwrap();
    write_all(&mut w, &mut file, &mut pos, b"RSRCBYTES");
    disk.0.insert(name, file.clone());

    fi.rsrclen = 9;
    disk.write(&cfg, path, &fi).unwrap();

    let table = disk.table(path).unwrap().unwrap();
    assert_eq!(resource_len(Fork::Double, None, Some(&table)), 9);
    assert_eq!(disk.read(&cfg, path, None).comment, sample().comment);

    let mut ropts = ResourceOpenOptions::new();
    ropts.read(true);
    let file = disk.sidecar(path).unwrap();
    let (mut r, pos) =
        resource_open(Fork::Double, &table, file.len() as u64, &ropts).unwrap().unwrap();
    assert_eq!(read_to_end(&mut r, file, pos), b"RSRCBYTES");
}

#[test]
fn appledouble_rejects_a_resource_fork_its_descriptor_cannot_represent() {
    let cfg = config(Fork::Double);
    let mut disk = Disk::new();
    let mut fi = sample();
    fi.rsrclen = u64::from(u32::MAX) + 1;
    let error = disk.write(&cfg, b"/t/too-large.bin", &fi).unwrap_err();
    assert_eq!(error.kind(), ErrorKind::InvalidInput);
}

#[test]
fn appledouble_roundtrip() {
    let cfg = config(Fork::Double);
    let mut disk = Disk::new();
    disk.write(&cfg, b"/t/ad2.bin", &sample()).unwrap();
    let got = disk.read(&cfg, b"/t/ad2.bin", None);
    assert_eq!(got.type_creator, sample().type_creator);
    assert_eq!(got.create_time, sample().create_time);
    assert_eq!(got.modify_time, sample().modify_time);
    assert_eq!(got.comment, sample().comment);
}

#[test]
fn a_longer_comment_moves_the_fork_and_keeps_it() {
    let cfg = config(Fork::Double);
    let path = b"/t/move.bin";
    let mut disk = Disk::new();
    disk.write(&cfg, path, &sample()).unwrap();
    let table = disk.table(path).unwrap().unwrap();
    let rsrc = table.iter().find(|d| d.id == HDR_RSRC).unwrap().offset as usize;
    let name = finderinfo_path(path, b'/').unwrap();
    put(disk.0.get_mut(&name).unwrap(), rsrc, b"FORKBYTES");
    let mut fi = sample();
    fi.rsrclen = 9;
    disk.write(&cfg, path, &fi).unwrap();

    fi.comment = vec![b'c'; 120];
    disk.write(&cfg, path, &fi).unwrap();
    let table = disk.table(path).unwrap().unwrap();
    let d = table.iter().find(|d| d.id == HDR_RSRC).unwrap();
    let at = d.offset as usize;
    assert_eq!(&disk.sidecar(path).unwrap()[at..at + 9], b"FORKBYTES");
    let got = disk.read(&cfg, path, None);
    assert_eq!(got.comment, fi.comment);
    assert_eq!(got.rsrclen, 9);
    assert_eq!(got.create_time, fi.create_time);
}

#[test]
fn a_record_keeps_what_follows_it() {
    let cfg = Config::default();
    let mut disk = Disk::new();
    let name = finderinfo_path(b"/t/long.bin", b'/').unwrap();
    disk.0.insert(name, vec![7; 400]);
    disk.write(&cfg, b"/t/long.bin", &sample()).unwrap();
    let bytes = disk.sidecar(b"/t/long.bin").unwrap();
    assert_eq!(&bytes[300..], &[7; 100]);
    assert_eq!(decode_cap_info(bytes).unwrap().comment, sample().comment);
}

#[test]
fn a_new_table_is_in_order() {
    let table = fresh_dbl_descrs(16);
    let end = table.iter().map(|d| u64::from(d.offset) + u64::from(d.length)).max().unwrap();
    assert_eq!(validate_descrs(&table, end), Ok(()));
    assert!(table.iter().any(|d| d.id == HDR_FINFO));
    assert!(table.iter().any(|d| d.id == HDR_DATES));
}

#[test]
fn tables_that_are_refused() {
    let at = |id: u32, offset: u32, length: u32| Descr { id, offset, length };
    assert_eq!(
        validate_descrs(&[at(HDR_FINFO, 60, 4)], 100),
        Err(HfsError::MetadataTooShort)
    );
    assert_eq!(
        validate_descrs(&[at(HDR_COMNT, 60, 50)], 100),
        Err(HfsError::OutsideContainer)
    );
    assert_eq!(
        validate_descrs(&[at(HDR_COMNT, 60, 20), at(HDR_RSRC, 70, 20)], 100),
        Err(HfsError::Overlap)
    );
    assert_eq!(read_dbl_descrs(&[0; 10], 10), Err(HfsError::TruncatedHeader));
    assert_eq!(read_dbl_descrs(&[0; 30], 30), Err(HfsError::BadMagicOrVersion));
    assert_eq!(read_dbl_descrs(&[], 0), Ok(None));
    let mut head = Vec::new();
    head.extend_from_slice(&DBL_MAGIC.to_be_bytes());
    head.extend_from_slice(&HDR_VERSION_2.to_be_bytes());
    head.extend_from_slice(&[0; 16]);
    head.extend_from_slice(&17u16.to_be_bytes());
    assert_eq!(read_dbl_descrs(&head, 26), Err(HfsError::TooManyDescriptors));
    head[25] = 1;
    assert_eq!(read_dbl_descrs(&head, 26), Err(HfsError::TruncatedTable));
}

#[test]
fn forks_keep_to_their_modes_and_their_room() {
    let (mut f, at) = ResourceFork::new(100, 5, true, false, false, 5).unwrap();
    assert_eq!(at, 100);
    assert_eq!(f.start_write(1), Err(HfsError::NotWritable));
    assert_eq!(f.seek_to(SeekTo::End(1)), Err(HfsError::SeekExceedsFormat));
    assert_eq!(f.seek_to(SeekTo::Current(-1)), Err(HfsError::SeekOutOfRange));
    assert_eq!(f.seek_to(SeekTo::End(-2)), Ok((3, 103)));
    assert_eq!(f.read_limit(3), Ok(3));
    let (mut w, at) = ResourceFork::new(100, 5, false, true, true, 8).unwrap();
    assert_eq!(at, 105);
    assert_eq!(w.read_limit(1), Err(HfsError::NotReadable));
    assert_eq!(w.start_write(10), Ok((Some(105), 3)));
    w.did_write(3);
    assert_eq!(w.len(), 8);
    assert!(!w.is_empty());
    assert_eq!(
        ResourceFork::new(0, 9, true, true, false, 8).err(),
        Some(HfsError::LengthExceedsFormat)
    );
    assert_eq!(
        ResourceFork::new(u64::MAX, 9, true, true, true, 9).err(),
        Some(HfsError::SeekOverflows)
    );
}

#[test]
fn a_fork_that_something_follows_cannot_grow() {
    let table = [
        Descr { id: HDR_RSRC, offset: 60, length: 10 },
        Descr { id: HDR_COMNT, offset: 70, length: 5 },
    ];
    let mut opts = ResourceOpenOptions::new();
    opts.read(true).write(true);
    let (mut f, at) = resource_open(Fork::Double, &table, 75, &opts).unwrap().unwrap();
    assert_eq!(at, 60);
    assert_eq!(f.start_write(50), Ok((None, 10)));
    f.did_write(10);
    assert_eq!(f.start_write(1), Ok((None, 0)));
}

#[test]
fn whole_file_options_do_not_open_an_embedded_fork() {
    let mut opts = ResourceOpenOptions::new();
    opts.write(true).truncate(true);
    assert_eq!(opts.file_options(true).err(), Some(HfsError::WholeFileOptions));
    assert_eq!(HfsError::WholeFileOptions.kind(), ErrorKind::InvalidInput);
    assert_ne!(HfsError::WholeFileOptions.message(), HfsError::Overlap.message());
}

#[test]
fn header_times_count_from_the_year_2000() {
    assert_eq!(header_time(946_684_800), Some([0; 4]));
    assert_eq!(header_time(946_684_799), Some([0xff; 4]));
    assert_eq!(header_time(i64::MIN), None);
    assert_eq!(header_time(1 << 40), None);
}

#[test]
fn a_missing_file_is_no_fork_but_a_missing_folder_is_an_error() {
    assert!(is_absent(true, true, true));
    assert!(is_absent(true, false, false));
    assert!(!is_absent(true, true, false));
    assert!(!is_absent(false, true, true));
}
