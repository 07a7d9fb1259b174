use fetch_directory::{concat_ownedbytes, FetchFile, HandleRegistry, ReadStep};
use tantivy::directory::OwnedBytes;

fn content(len: usize) -> Vec<u8> {
    let mut bytes = Vec::with_capacity(len);
    for i in 0..len {
        bytes.push(((i * 13 + i / 97 + 5) % 256) as u8);
    }
    bytes
}

fn serve(registry: &mut HandleRegistry, handle: usize, todo: &[u64], content: &[u8]) -> usize {
    let mut fetches = 0;
    for &idx in todo {
        let span = registry.file(handle).unwrap().chunk_range(idx).unwrap();
        let data = content[span.start as usize..span.end as usize].to_vec();
        fetches += 1;
        registry.insert_chunk(handle, idx, data).unwrap();
    }
    fetches
}

#[test]
fn batch_fetches_each_missing_chunk_once() {
    let truth = content(10000);
    let mut registry = HandleRegistry::new();
    let handle = FetchFile::get(&mut registry, "f".to_string(), 1000, Some(10000)).unwrap();
    // Chunk 3 is resident before the batch.
    serve(&mut registry, handle, &[3], &truth);

    let ranges = [2500..4500, 100..200, 4000..4100, 0..1500, 9999..10000, 7000..7000];
    let step = registry.file(handle).unwrap().read_bytes_multiple(&ranges);
    let todo = match step {
        ReadStep::Fetch(todo) => todo,
        ReadStep::Done(_) => panic!("chunks are missing"),
    };
    assert_eq!(todo, vec![2, 4, 0, 1, 9]);
    assert_eq!(serve(&mut registry, handle, &todo, &truth), 5);

    let step = registry.file(handle).unwrap().read_bytes_multiple(&ranges);
    let results = match step {
        ReadStep::Done(results) => results,
        ReadStep::Fetch(todo) => panic!("unexpected fetch of {:?}", todo),
    };
    assert_eq!(results.len(), ranges.len());
    for (range, bytes) in ranges.iter().zip(results.iter()) {
        assert_eq!(bytes.as_slice(), &truth[range.start as usize..range.end as usize]);
    }
}

#[test]
fn batch_reads_what_single_reads_read() {
    let truth = content(5000);
    let ranges = [0..5000, 17..18, 4095..4097, 300..300, 1234..4321];
    for chunk_size in [1u64, 17, 4096, 5000] {
        let mut batched = HandleRegistry::new();
        let b = FetchFile::get(&mut batched, "f".to_string(), chunk_size, Some(5000)).unwrap();
        let mut single = HandleRegistry::new();
        let s = FetchFile::get(&mut single, "f".to_string(), chunk_size, Some(5000)).unwrap();

        let mut batch_fetches = 0;
        let results = loop {
            match batched.file(b).unwrap().read_bytes_multiple(&ranges) {
                ReadStep::Done(results) => break results,
                ReadStep::Fetch(todo) => batch_fetches += serve(&mut batched, b, &todo, &truth),
            }
        };
        // Every chunk of the file is touched, and fetched once.
        assert_eq!(batch_fetches as u64, (5000 + chunk_size - 1) / chunk_size);

        for (range, from_batch) in ranges.iter().zip(results.iter()) {
            let alone = loop {
                match single.file(s).unwrap().read_bytes(range.start, range.end) {
                    ReadStep::Done(bytes) => break bytes,
                    ReadStep::Fetch(todo) => {
                        serve(&mut single, s, &todo, &truth);
                    }
                }
            };
            assert_eq!(from_batch.as_slice(), alone.as_slice());
        }
    }
}

#[test]
fn empty_batch_reads_nothing() {
    let mut registry = HandleRegistry::new();
    let handle = FetchFile::get(&mut registry, "f".to_string(), 10, Some(100)).unwrap();
    match registry.file(handle).unwrap().read_bytes_multiple(&[]) {
        ReadStep::Done(results) => assert!(results.is_empty()),
        ReadStep::Fetch(todo) => panic!("unexpected fetch of {:?}", todo),
    }
}

#[test]
fn batch_of_resident_ranges_needs_no_fetch() {
    let truth = content(100);
    let mut registry = HandleRegistry::new();
    let handle = FetchFile::get(&mut registry, "f".to_string(), 10, Some(100)).unwrap();
    serve(&mut registry, handle, &[0, 1, 2], &truth);
    match registry.file(handle).unwrap().read_bytes_multiple(&[0..30, 5..25, 29..30]) {
        ReadStep::Done(results) => {
            assert_eq!(results[0].as_slice(), &truth[0..30]);
            assert_eq!(results[1].as_slice(), &truth[5..25]);
            assert_eq!(results[2].as_slice(), &truth[29..30]);
        }
        ReadStep::Fetch(todo) => panic!("unexpected fetch of {:?}", todo),
    }
}

#[test]
fn concat_of_no_buffer_is_empty() {
    assert!(concat_ownedbytes(Vec::new()).is_empty());
}

#[test]
fn concat_of_one_buffer_shares_its_storage() {
    let buffer = OwnedBytes::new(vec![1u8, 2, 3, 4]);
    let part = buffer.slice(1..3);
    let joined = concat_ownedbytes(vec![part.clone()]);
    assert_eq!(joined.as_slice(), &[2u8, 3]);
    assert_eq!(joined.as_slice().as_ptr(), part.as_slice().as_ptr());
}

#[test]
fn concat_of_several_buffers_joins_them_in_order() {
    let a = OwnedBytes::new(vec![1u8, 2]);
    let b = OwnedBytes::empty();
    let c = OwnedBytes::new(vec![3u8]);
    let d = OwnedBytes::new(vec![4u8, 5, 6]).slice(1..3);
    let joined = concat_ownedbytes(vec![a, b, c, d]);
    assert_eq!(joined.as_slice(), &[1u8, 2, 3, 5, 6]);
}
