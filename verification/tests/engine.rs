use unfs::FsError;
use unfs::disk::Disk;
use unfs::fs::UnFS;
use unfs::layout::Block;
use unfs::layout::EXTENTS_PER_FRAGMENT;
use unfs::layout::Extent;
use unfs::layout::Header;
use unfs::layout::Node;
use unfs::layout::SectorList;
use unfs::layout::decode_header;
use unfs::layout::decode_node;
use unfs::layout::decode_sector_list;
use unfs::layout::encode_header;
use unfs::layout::encode_node;
use unfs::layout::encode_sector_list;
use unfs::layout::find_zero;
use unfs::layout::match_exact;
use unfs::layout::match_prefix;
use unfs::layout::trimmed_name;
use unfs::platform::is_supported;

fn block(a: u64) -> Block {
    Block { address: a }
}

fn extent(a: u64, l: u64) -> Extent {
    Extent { block: block(a), length: l }
}

fn header_sector(signature: [u8; 4], version: u32, root: u64) -> Vec<u8> {
    let h = Header {
        signature: signature.to_vec(),
        version,
        root_sector_list: block(root),
        free_sector_list: block(0),
        name: vec![0u8; 256],
        reserved: vec![0u8; 232],
    };
    encode_header(&h)
}

fn node_sector(name: &[u8], data_list: u64) -> Vec<u8> {
    let mut buf = vec![0u8; 256];
    buf[..name.len()].copy_from_slice(name);
    let n = Node {
        parent_collection: block(0),
        data_sector_list: block(data_list),
        data_size: 0,
        user_id: 0,
        group_id: 0,
        mode: 0,
        modify_time: 0,
        access_time: 0,
        create_time: 0,
        name: buf,
        reserved: vec![0u8; 184],
    };
    encode_node(&n)
}

fn list_sector(extents: &[(u64, u64)], next: u64) -> Vec<u8> {
    let mut ex: Vec<Extent> = Vec::new();
    for i in 0..EXTENTS_PER_FRAGMENT {
        if i < extents.len() {
            ex.push(extent(extents[i].0, extents[i].1));
        } else {
            ex.push(extent(0, 0));
        }
    }
    let l = SectorList {
        parent_node: block(0),
        fragment_number: 0,
        next_fragment: block(next),
        last_fragment: block(0),
        extents: ex,
    };
    encode_sector_list(&l)
}

fn image(sectors: &[(u64, Vec<u8>)], total: u64) -> Vec<u8> {
    let mut d = vec![0u8; (total as usize) * 512];
    for (s, bytes) in sectors {
        let at = (*s as usize) * 512;
        d[at..at + 512].copy_from_slice(bytes);
    }
    d
}

/// The scenario volume: "readme.txt" with a two-sector extent at 30.
fn readme_volume() -> UnFS {
    let mut data = vec![0u8; 1024];
    for (i, b) in data.iter_mut().enumerate() {
        *b = (i % 251) as u8;
    }
    let img = image(
        &[
            (1, header_sector(*b"UnFS", 1, 2)),
            (2, list_sector(&[(10, 1)], 0)),
            (10, node_sector(b"readme.txt", 20)),
            (20, list_sector(&[(30, 2)], 0)),
            (30, data[..512].to_vec()),
            (31, data[512..].to_vec()),
        ],
        40,
    );
    UnFS::from_disk(Disk::new(img))
}

#[test]
fn valid_iff_signature() {
    let fs = readme_volume();
    assert!(fs.valid());
    let bad = UnFS::from_disk(Disk::new(image(&[(1, header_sector(*b"UnFX", 1, 2))], 4)));
    assert!(!bad.valid());
    let zeroed = UnFS::from_disk(Disk::new(vec![0u8; 4 * 512]));
    assert!(!zeroed.valid());
}

#[test]
fn mount_tiny_device_is_invalid() {
    let fs = UnFS::from_disk(Disk::new(vec![0u8; 512]));
    assert!(!fs.valid());
    assert_eq!(fs.header.root_sector_list.address, 0);
    assert_eq!(fs.list(b"").len(), 0);
}

#[test]
fn scenario_readme() {
    let fs = readme_volume();
    assert!(fs.valid());
    assert_eq!(fs.header.version, 1);
    assert_eq!(fs.header.root_sector_list.address, 2);

    let node = fs.node(b"readme.txt").unwrap();
    assert_eq!(node.data_sector_list.address, 20);

    assert_eq!(fs.node(b"readme").unwrap_err(), FsError::NotFound);

    let names = fs.list(b"read");
    assert_eq!(names, vec![b"readme.txt".to_vec()]);

    let content = fs.load(b"readme.txt").unwrap();
    assert_eq!(content.len(), 1024);
    for (i, b) in content.iter().enumerate() {
        assert_eq!(*b, (i % 251) as u8);
    }
}

#[test]
fn resolve_exact_not_extended() {
    let fs = readme_volume();
    assert!(fs.node(b"readme.txt").is_ok());
    assert_eq!(fs.node(b"readme.txt.bak").unwrap_err(), FsError::NotFound);
    assert_eq!(fs.node(b"readme.txtX").unwrap_err(), FsError::NotFound);
    assert_eq!(fs.node(b"").unwrap_err(), FsError::NotFound);
}

#[test]
fn resolve_returns_first_duplicate() {
    let img = image(
        &[
            (1, header_sector(*b"UnFS", 1, 2)),
            (2, list_sector(&[(10, 2)], 0)),
            (10, node_sector(b"twin", 20)),
            (11, node_sector(b"twin", 21)),
        ],
        24,
    );
    let fs = UnFS::from_disk(Disk::new(img));
    let node = fs.node(b"twin").unwrap();
    assert_eq!(node.data_sector_list.address, 20);
}

#[test]
fn list_empty_prefix_in_disk_order() {
    // Two fragments; the first holds two extents with an unused slot
    // between them; order must be chain, then slot, then sector.
    let img = image(
        &[
            (1, header_sector(*b"UnFS", 1, 2)),
            (2, list_sector(&[(10, 2), (0, 0), (12, 1)], 3)),
            (3, list_sector(&[(13, 1)], 0)),
            (10, node_sector(b"alpha", 0)),
            (11, node_sector(b"beta", 0)),
            (12, node_sector(b"alp", 0)),
            (13, node_sector(b"gamma", 0)),
        ],
        16,
    );
    let fs = UnFS::from_disk(Disk::new(img));
    let all = fs.list(b"");
    assert_eq!(
        all,
        vec![
            b"alpha".to_vec(),
            b"beta".to_vec(),
            b"alp".to_vec(),
            b"gamma".to_vec(),
        ]
    );
    let filtered = fs.list(b"alp");
    assert_eq!(filtered, vec![b"alpha".to_vec(), b"alp".to_vec()]);
    let exact_prefix = fs.list(b"gamma");
    assert_eq!(exact_prefix, vec![b"gamma".to_vec()]);
    assert_eq!(fs.list(b"zeta").len(), 0);
}

#[test]
fn chain_terminates_over_unused_extents() {
    // Three fragments, the middle one entirely unused; the walk must visit
    // each exactly once and stop at the zero terminator.
    let img = image(
        &[
            (1, header_sector(*b"UnFS", 1, 2)),
            (2, list_sector(&[(10, 1)], 3)),
            (3, list_sector(&[], 4)),
            (4, list_sector(&[(11, 1)], 0)),
            (10, node_sector(b"one", 0)),
            (11, node_sector(b"two", 0)),
        ],
        16,
    );
    let fs = UnFS::from_disk(Disk::new(img));
    let all = fs.list(b"");
    assert_eq!(all, vec![b"one".to_vec(), b"two".to_vec()]);
}

#[test]
fn save_then_load_roundtrip() {
    let mut fs = readme_volume();
    let mut payload = vec![0u8; 1024];
    for (i, b) in payload.iter_mut().enumerate() {
        *b = (i % 13) as u8 ^ 0x5a;
    }
    fs.save(b"readme.txt", &payload).unwrap();
    let back = fs.load(b"readme.txt").unwrap();
    assert_eq!(back, payload);
}

#[test]
fn save_size_mismatch_writes_nothing() {
    let mut fs = readme_volume();
    let before = fs.load(b"readme.txt").unwrap();
    let short = vec![7u8; 512];
    assert_eq!(fs.save(b"readme.txt", &short).unwrap_err(), FsError::SizeMismatch);
    let long = vec![7u8; 1536];
    assert_eq!(fs.save(b"readme.txt", &long).unwrap_err(), FsError::SizeMismatch);
    let empty: Vec<u8> = Vec::new();
    assert_eq!(fs.save(b"readme.txt", &empty).unwrap_err(), FsError::SizeMismatch);
    assert_eq!(fs.load(b"readme.txt").unwrap(), before);
}

#[test]
fn save_not_found_and_unsupported() {
    let img = image(
        &[
            (1, header_sector(*b"UnFS", 1, 2)),
            (2, list_sector(&[(10, 2)], 0)),
            (10, node_sector(b"bare", 0)),
            (11, node_sector(b"hollow", 20)),
            (20, list_sector(&[], 0)),
        ],
        24,
    );
    let mut fs = UnFS::from_disk(Disk::new(img));
    let buf = vec![1u8; 512];
    assert_eq!(fs.save(b"missing", &buf).unwrap_err(), FsError::NotFound);
    // No data chain at all: nothing can be grown.
    assert_eq!(fs.save(b"bare", &buf).unwrap_err(), FsError::Unsupported);
    // A data-list fragment whose first extent slot is unused.
    assert_eq!(fs.save(b"hollow", &buf).unwrap_err(), FsError::Unsupported);
}

#[test]
fn load_empty_cases() {
    let img = image(
        &[
            (1, header_sector(*b"UnFS", 1, 2)),
            (2, list_sector(&[(10, 2)], 0)),
            (10, node_sector(b"bare", 0)),
            (11, node_sector(b"hollow", 20)),
            (20, list_sector(&[], 0)),
        ],
        24,
    );
    let fs = UnFS::from_disk(Disk::new(img));
    assert_eq!(fs.load(b"bare").unwrap().len(), 0);
    assert_eq!(fs.load(b"hollow").unwrap().len(), 0);
    assert_eq!(fs.load(b"missing").unwrap_err(), FsError::NotFound);
}

#[test]
fn fully_mapped_reports_truncation() {
    let img = image(
        &[
            (1, header_sector(*b"UnFS", 1, 2)),
            (2, list_sector(&[(10, 4)], 0)),
            (10, node_sector(b"plain", 20)),
            (11, node_sector(b"wide", 21)),
            (12, node_sector(b"chained", 22)),
            (13, node_sector(b"bare", 0)),
            (20, list_sector(&[(30, 1)], 0)),
            (21, list_sector(&[(31, 1), (32, 1)], 0)),
            (22, list_sector(&[(33, 1)], 23)),
            (23, list_sector(&[(34, 1)], 0)),
        ],
        40,
    );
    let fs = UnFS::from_disk(Disk::new(img));
    assert_eq!(fs.fully_mapped(b"plain").unwrap(), true);
    assert_eq!(fs.fully_mapped(b"wide").unwrap(), false);
    assert_eq!(fs.fully_mapped(b"chained").unwrap(), false);
    assert_eq!(fs.fully_mapped(b"bare").unwrap(), true);
    assert_eq!(fs.fully_mapped(b"missing").unwrap_err(), FsError::NotFound);
}

#[test]
fn disk_transfer_bounds() {
    let d = Disk::new(vec![0u8; 4 * 512]);
    assert!(d.read(0, 4).is_ok());
    assert_eq!(d.read(4, 1).unwrap_err(), FsError::IoError);
    assert_eq!(d.read(3, 2).unwrap_err(), FsError::IoError);
    let mut d = Disk::new(vec![0u8; 4 * 512]);
    let sector = vec![9u8; 512];
    assert!(d.write(3, 1, &sector).is_ok());
    assert_eq!(d.write(4, 1, &sector).unwrap_err(), FsError::IoError);
    assert_eq!(d.read(3, 1).unwrap(), sector);
    assert_eq!(d.read(2, 1).unwrap(), vec![0u8; 512]);
}

#[test]
fn codec_roundtrips() {
    let h = Header {
        signature: b"UnFS".to_vec(),
        version: 7,
        root_sector_list: block(2),
        free_sector_list: block(9),
        name: vec![3u8; 256],
        reserved: vec![4u8; 232],
    };
    let hs = encode_header(&h);
    assert_eq!(hs.len(), 512);
    let h2 = decode_header(&hs);
    assert_eq!(h2.signature, h.signature);
    assert_eq!(h2.version, 7);
    assert_eq!(h2.root_sector_list.address, 2);
    assert_eq!(h2.free_sector_list.address, 9);
    assert_eq!(h2.name, h.name);
    assert_eq!(h2.reserved, h.reserved);

    let ns = node_sector(b"file", 77);
    let n = decode_node(&ns);
    assert_eq!(n.data_sector_list.address, 77);
    assert_eq!(&n.name[..4], b"file");
    assert_eq!(n.name[4], 0);

    let ls = list_sector(&[(5, 6), (7, 8)], 42);
    let l = decode_sector_list(&ls);
    assert_eq!(l.next_fragment.address, 42);
    assert_eq!(l.extents[0].block.address, 5);
    assert_eq!(l.extents[0].length, 6);
    assert_eq!(l.extents[1].block.address, 7);
    assert_eq!(l.extents[1].length, 8);
    assert_eq!(l.extents[2].block.address, 0);
}

#[test]
fn name_matching_edges() {
    let mut buf = vec![0u8; 256];
    buf[..3].copy_from_slice(b"abc");
    assert!(match_exact(&buf, b"abc"));
    assert!(!match_exact(&buf, b"ab"));
    assert!(!match_exact(&buf, b"abcd"));
    assert!(match_prefix(&buf, b""));
    assert!(match_prefix(&buf, b"ab"));
    assert!(match_prefix(&buf, b"abc"));
    assert!(!match_prefix(&buf, b"abcd"));
    assert_eq!(find_zero(&buf), 3);
    assert_eq!(trimmed_name(&buf), b"abc".to_vec());

    // A name that fills the whole buffer has no terminator: exact match
    // can never succeed, while prefix listing still sees all 256 bytes.
    let full = vec![b'x'; 256];
    assert!(!match_exact(&full, &full));
    assert!(match_prefix(&full, &full));
    assert_eq!(find_zero(&full), 256);
}

#[test]
fn platform_probe() {
    assert!(is_supported());
}
