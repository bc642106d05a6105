use abixio::digest::sha256_hex;
use abixio::multipart::{
    check_parts, complete_upload, create_upload, decode_part, encode_part, etag_text, final_etag,
    finish_part, is_part_meta, list_parts, list_uploads, multipart_bucket_dir, part_file,
    part_meta_file, put_part, upload_dir, PartFileMeta, PartMeta, PartRead, UploadMeta,
};
use abixio::shards::split_data;
use abixio::storage::{ErasureMeta, StorageError};

fn upload(key: &str, id: &str) -> UploadMeta {
    UploadMeta {
        upload_id: id.to_string(),
        bucket: "b".to_string(),
        key: key.to_string(),
        content_type: "text/plain".to_string(),
        user_metadata: vec![],
        created_at: 5,
        data_dir: "d".to_string(),
    }
}

fn part(n: i32, size: u64, etag: &str) -> PartMeta {
    PartMeta { part_number: n, size, etag: etag.to_string() }
}

#[test]
fn data_is_cut_into_equal_shards() {
    let shards = split_data(b"abcdefg", 3);
    assert_eq!(shards, vec![b"abc".to_vec(), b"def".to_vec(), b"g\0\0".to_vec()]);
}

#[test]
fn a_stored_part_survives_a_loss() {
    let data = b"some bytes of a part";
    let shards = encode_part(data, 2, 2).unwrap();
    assert_eq!(shards.len(), 4);
    for a in 0..4 {
        for b in 0..4 {
            let mut slots: Vec<Option<Vec<u8>>> = shards.iter().cloned().map(Some).collect();
            slots[a] = None;
            slots[b] = None;
            assert_eq!(decode_part(slots, 2, 2, data.len() as u64).unwrap(), data);
        }
    }
    let mut slots: Vec<Option<Vec<u8>>> = shards.iter().cloned().map(Some).collect();
    slots[0] = None;
    slots[1] = None;
    slots[2] = None;
    assert!(decode_part(slots, 2, 2, data.len() as u64).is_err());
}

#[test]
fn parts_without_parity_are_plain() {
    let shards = encode_part(b"abcd", 2, 0).unwrap();
    assert_eq!(shards, vec![b"ab".to_vec(), b"cd".to_vec()]);
    let slots = shards.into_iter().map(Some).collect();
    assert_eq!(decode_part(slots, 2, 0, 4).unwrap(), b"abcd");
}

#[test]
fn each_shard_is_written_to_its_disk() {
    let (put, writes) = put_part(b"payload", 2, 1, &vec![2, 0, 1], 3, 1).unwrap();
    assert_eq!((put.part_number, put.size), (1, 7));
    assert_eq!(put.etag, "321c3cf486ed509164edec1e1981fec8");
    assert_eq!(writes.len(), 3);
    let shards = encode_part(b"payload", 2, 1).unwrap();
    for w in &writes {
        assert_eq!(w.data, shards[w.meta.erasure.index]);
        assert_eq!(w.meta.checksum, sha256_hex(&w.data));
        assert_eq!(w.meta.size, 7);
        assert_eq!(w.meta.etag, put.etag);
    }
    assert_eq!(writes[0].disk, 2);
    assert!(finish_part(part(1, 7, "e"), 3, 2, 1).is_ok());
    assert_eq!(finish_part(part(1, 7, "e"), 1, 2, 1).unwrap_err(), StorageError::WriteQuorum);
}

fn found(n: i32, index: usize) -> PartFileMeta {
    PartFileMeta {
        part_number: n,
        size: 7,
        etag: format!("e{}", n),
        erasure: ErasureMeta {
            data: 2,
            parity: 1,
            index,
            distribution: vec![0, 1, 2],
            epoch_id: 0,
            volume_ids: vec![],
        },
        checksum: String::new(),
    }
}

#[test]
fn each_part_is_listed_once_in_order() {
    let parts = list_parts(&vec![found(3, 0), found(1, 0), found(3, 1)]);
    let numbers: Vec<i32> = parts.iter().map(|p| p.part_number).collect();
    assert_eq!(numbers, vec![1, 3]);
}

#[test]
fn uploads_are_listed_once() {
    let listed = list_uploads(&vec![
        None,
        Some(vec![upload("k2", "2"), upload("k1", "1")]),
        Some(vec![upload("k1", "1"), upload("k3", "3")]),
    ])
    .unwrap();
    let ids: Vec<&str> = listed.iter().map(|u| u.upload_id.as_str()).collect();
    assert_eq!(ids, vec!["2", "1", "3"]);
    assert!(list_uploads(&vec![None, None]).unwrap().is_empty());
    assert_eq!(create_upload(&upload("k", "9"), 1).unwrap(), "9");
    assert!(create_upload(&upload("k", "9"), 0).is_err());
}

#[test]
fn a_completed_upload_is_its_parts_in_a_row() {
    let available = vec![part(1, 5, "e1"), part(2, 3, "e2")];
    let asked = vec![(1, "e1".to_string()), (2, "e2".to_string())];
    assert!(check_parts(&available, &asked).is_ok());
    let read = |data: &[u8]| {
        Some(PartRead {
            size: data.len() as u64,
            slots: encode_part(data, 2, 1).unwrap().into_iter().map(Some).collect(),
        })
    };
    let body =
        complete_upload(&available, &asked, vec![read(b"first"), read(b"snd")], 2, 1).unwrap();
    assert_eq!(body, b"firstsnd");
    assert!(check_parts(&available, &vec![(3, "e3".to_string())]).is_err());
    assert!(check_parts(&available, &vec![(1, "other".to_string())]).is_ok());
    assert!(complete_upload(&available, &asked, vec![read(b"first"), None], 2, 1).is_err());
}

#[test]
fn names_and_tags() {
    assert_eq!(part_file(3), "part.3");
    assert_eq!(part_meta_file(3), "part.3.meta");
    assert!(is_part_meta("part.3.meta"));
    assert!(!is_part_meta("part.3"));
    assert_eq!(etag_text(&vec![(1, "aa".to_string()), (2, "bb".to_string())]), "aabb");
    assert_eq!(
        final_etag(&vec![(1, "\"aa\"".to_string()), (2, "bb".to_string())]),
        "5e394281dfac81c1e7dddcaf4d35d1f6-2"
    );
    assert_eq!(final_etag(&vec![]), "d41d8cd98f00b204e9800998ecf8427e-0");
    assert!(multipart_bucket_dir("disk", "b").len() < upload_dir("disk", "b", "k", "u").len());
}
