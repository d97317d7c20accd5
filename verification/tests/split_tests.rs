use bytes::Bytes;
use md5::Digest;
use md5::Md5;
use multipart_upload::split::split;
use multipart_upload::split::Part;
use multipart_upload::split::Splitter;

fn md5_of(data: &[u8]) -> [u8; 16] {
    Md5::digest(data).into()
}

fn assert_part(part: &Part, body: &[&'static [u8]], content_length: usize, part_number: usize) {
    let expected_body: Vec<Bytes> = body.iter().map(|b| Bytes::from_static(b)).collect();
    assert_eq!(part.body, expected_body);
    assert_eq!(part.content_length, content_length);
    let all: Vec<u8> = body.iter().flat_map(|b| b.iter().copied()).collect();
    assert_eq!(part.content_md5, md5_of(&all));
    assert_eq!(part.part_number, part_number);
}

#[test]
fn test_split() {
    let parts = split(
        vec![
            Bytes::from_static(&[0, 1, 2]),
            Bytes::from_static(&[3, 4]),
            Bytes::from_static(&[
                5, 6, 7, 8, 9, 10, 11, 12, 13, 14, 15, 16, 17, 18, 19, 20, 21,
            ]),
            Bytes::from_static(&[22, 23]),
        ],
        4,
        8,
    );
    assert_eq!(parts.len(), 4);
    assert_part(&parts[0], &[&[0, 1, 2], &[3, 4]], 5, 1);
    assert_part(&parts[1], &[&[5, 6, 7, 8, 9, 10, 11, 12]], 8, 2);
    assert_part(&parts[2], &[&[13, 14, 15, 16, 17, 18, 19, 20]], 8, 3);
    assert_part(&parts[3], &[&[21], &[22, 23]], 3, 4);
}

#[test]
fn test_split_empty_input() {
    let parts = split(Vec::new(), 4, 8);
    assert_eq!(parts.len(), 0);
    let parts = split(vec![Bytes::new(), Bytes::new()], 4, 8);
    assert_eq!(parts.len(), 0);
}

#[test]
fn test_split_exactly_min() {
    let parts = split(vec![Bytes::from_static(&[9, 8, 7, 6])], 4, 8);
    assert_eq!(parts.len(), 1);
    assert_part(&parts[0], &[&[9, 8, 7, 6]], 4, 1);
}

#[test]
fn test_split_double_min_at_max() {
    let parts = split(vec![Bytes::from_static(&[0, 1, 2, 3, 4, 5, 6, 7])], 4, 8);
    assert_eq!(parts.len(), 1);
    assert_part(&parts[0], &[&[0, 1, 2, 3, 4, 5, 6, 7]], 8, 1);
}

#[test]
fn test_split_one_large_chunk_makes_several_parts() {
    let data: &'static [u8] = &[
        0, 1, 2, 3, 4, 5, 6, 7, 8, 9, 10, 11, 12, 13, 14, 15, 16, 17, 18, 19,
    ];
    let parts = split(vec![Bytes::from_static(data)], 4, 8);
    assert_eq!(parts.len(), 3);
    assert_part(&parts[0], &[&[0, 1, 2, 3, 4, 5, 6, 7]], 8, 1);
    assert_part(&parts[1], &[&[8, 9, 10, 11, 12, 13, 14, 15]], 8, 2);
    assert_part(&parts[2], &[&[16, 17, 18, 19]], 4, 3);
}

#[test]
fn test_split_roundtrip_many_chunkings() {
    let data: Vec<u8> = (0..=255u8).cycle().take(1000).collect();
    for chunk_len in [1usize, 3, 7, 10, 64, 999, 1000] {
        let chunks: Vec<Bytes> = data
            .chunks(chunk_len)
            .map(|c| Bytes::copy_from_slice(c))
            .collect();
        let parts = split(chunks, 16, 40);
        let rebuilt: Vec<u8> = parts
            .iter()
            .flat_map(|p| p.body.iter().flat_map(|b| b.iter().copied()))
            .collect();
        assert_eq!(rebuilt, data);
        for (i, p) in parts.iter().enumerate() {
            assert_eq!(p.part_number, i + 1);
            assert!(p.content_length > 0);
            assert!(p.content_length <= 40);
            if i + 1 < parts.len() {
                assert!(p.content_length >= 16);
            }
            let own: Vec<u8> = p.body.iter().flat_map(|b| b.iter().copied()).collect();
            assert_eq!(p.content_length, own.len());
            assert_eq!(p.content_md5, md5_of(&own));
        }
    }
}

#[test]
fn test_split_digest_known_value() {
    let parts = split(vec![Bytes::from_static(b"abc")], 4, 8);
    assert_eq!(parts.len(), 1);
    assert_eq!(
        parts[0].content_md5,
        [
            0x90, 0x01, 0x50, 0x98, 0x3c, 0xd2, 0x4f, 0xb0, 0xd6, 0x96, 0x3f, 0x7d, 0x28, 0xe1,
            0x7f, 0x72
        ]
    );
}

#[test]
fn test_splitter_incremental() {
    let mut sp = Splitter::new(4, 8);
    let mut parts: Vec<Part> = Vec::new();
    for chunk in [
        Bytes::from_static(&[0, 1, 2]),
        Bytes::from_static(&[3, 4]),
        Bytes::from_static(&[5, 6, 7, 8, 9, 10, 11, 12, 13]),
    ] {
        while let Some(p) = sp.pop() {
            parts.push(p);
        }
        sp.push(chunk);
    }
    while let Some(p) = sp.pop() {
        parts.push(p);
    }
    if let Some(p) = sp.finish() {
        parts.push(p);
    }
    assert_eq!(parts.len(), 3);
    assert_part(&parts[0], &[&[0, 1, 2], &[3, 4]], 5, 1);
    assert_part(&parts[1], &[&[5, 6, 7, 8, 9, 10, 11, 12]], 8, 2);
    assert_part(&parts[2], &[&[13]], 1, 3);
}
