use fetch_directory::{FetchError, FetchFile, HandleRegistry, MaybeToRead, ReadStep};
use tantivy::directory::OwnedBytes;

/// The bytes of a file of `len` bytes that no chunk size divides evenly.
fn content(len: usize) -> Vec<u8> {
    let mut bytes = Vec::with_capacity(len);
    for i in 0..len {
        bytes.push(((i * 31 + i / 251 + 7) % 256) as u8);
    }
    bytes
}

fn open(registry: &mut HandleRegistry, path: &str, chunk_size: u64, len: u64) -> usize {
    FetchFile::get(registry, path.to_string(), chunk_size, Some(len)).unwrap()
}

/// Fetches the chunks of `todo` from `content` and hands them to the file.
/// Returns the number of fetches.
fn serve(registry: &mut HandleRegistry, handle: usize, todo: &[u64], content: &[u8]) -> usize {
    let mut fetches = 0;
    for &idx in todo {
        let span = registry.file(handle).unwrap().chunk_range(idx).unwrap();
        let data = content[span.start as usize..span.end as usize].to_vec();
        fetches += 1;
        registry.insert_chunk(handle, idx, data).unwrap();
    }
    fetches
}

/// Reads a range to its end, fetching what the file asks for. Returns the bytes
/// and the number of fetches.
fn read(
    registry: &mut HandleRegistry,
    handle: usize,
    from: u64,
    to: u64,
    content: &[u8],
) -> (OwnedBytes, usize) {
    let mut fetches = 0;
    loop {
        let step = registry.file(handle).unwrap().read_bytes(from, to);
        match step {
            ReadStep::Done(bytes) => return (bytes, fetches),
            ReadStep::Fetch(todo) => fetches += serve(registry, handle, &todo, content),
        }
    }
}

fn expect_done(step: ReadStep<OwnedBytes>) -> OwnedBytes {
    match step {
        ReadStep::Done(bytes) => bytes,
        ReadStep::Fetch(todo) => panic!("unexpected fetch of {:?}", todo),
    }
}

fn expect_fetch<T>(step: ReadStep<T>) -> Vec<u64> {
    match step {
        ReadStep::Fetch(todo) => todo,
        ReadStep::Done(_) => panic!("the read was served without a fetch"),
    }
}

#[test]
fn read_of_two_chunks_then_read_inside_them() {
    let truth = content(10000);
    let mut registry = HandleRegistry::new();
    let handle = open(&mut registry, "index/data", 4096, 10000);

    let todo = expect_fetch(registry.file(handle).unwrap().read_bytes(0, 5000));
    assert_eq!(todo, vec![0, 1]);
    assert_eq!(serve(&mut registry, handle, &todo, &truth), 2);

    let bytes = expect_done(registry.file(handle).unwrap().read_bytes(0, 5000));
    assert_eq!(bytes.as_slice(), &truth[0..5000]);

    let (bytes, fetches) = read(&mut registry, handle, 100, 200, &truth);
    assert_eq!(fetches, 0);
    assert_eq!(bytes.as_slice(), &truth[100..200]);
}

#[test]
fn empty_range_on_a_chunk_boundary_fetches_nothing() {
    let truth = content(10000);
    let mut registry = HandleRegistry::new();
    let handle = open(&mut registry, "index/data", 4096, 10000);

    let bytes = expect_done(registry.file(handle).unwrap().read_bytes(4096, 4096));
    assert_eq!(bytes.len(), 0);
    assert!(registry.file(handle).unwrap().get_toread_list(4096, 4096).is_empty());

    let (bytes, fetches) = read(&mut registry, handle, 4096, 4096, &truth);
    assert_eq!(fetches, 0);
    assert!(bytes.is_empty());
}

#[test]
fn empty_range_fetches_nothing_wherever_it_lies() {
    let mut registry = HandleRegistry::new();
    let handle = open(&mut registry, "index/data", 17, 100);
    for at in 0..=100u64 {
        let bytes = expect_done(registry.file(handle).unwrap().read_bytes(at, at));
        assert!(bytes.is_empty());
    }
}

#[test]
fn range_that_ends_on_a_chunk_boundary_leaves_the_next_chunk_alone() {
    let truth = content(10000);
    let mut registry = HandleRegistry::new();
    let handle = open(&mut registry, "index/data", 4096, 10000);

    let todo = expect_fetch(registry.file(handle).unwrap().read_bytes(0, 4096));
    assert_eq!(todo, vec![0]);
    let todo = expect_fetch(registry.file(handle).unwrap().read_bytes(4000, 8192));
    assert_eq!(todo, vec![0, 1]);

    let (bytes, fetches) = read(&mut registry, handle, 4000, 8192, &truth);
    assert_eq!(fetches, 2);
    assert_eq!(bytes.as_slice(), &truth[4000..8192]);
}

#[test]
fn read_returns_the_bytes_of_the_file() {
    let truth = content(1000);
    let ranges = [(0u64, 1000u64), (0, 1), (999, 1000), (16, 17), (17, 34), (5, 700), (511, 513)];
    for chunk_size in [1u64, 7, 17, 256, 999, 1000, 1001, 4096] {
        let mut registry = HandleRegistry::new();
        let handle = open(&mut registry, "f", chunk_size, 1000);
        for &(from, to) in ranges.iter() {
            let (bytes, _) = read(&mut registry, handle, from, to, &truth);
            assert_eq!(bytes.len() as u64, to - from);
            assert_eq!(bytes.as_slice(), &truth[from as usize..to as usize]);
        }
    }
}

#[test]
fn read_of_every_range_of_a_short_file() {
    let truth = content(23);
    for chunk_size in [1u64, 2, 5, 23, 24] {
        let mut registry = HandleRegistry::new();
        let handle = open(&mut registry, "f", chunk_size, 23);
        for from in 0..=23u64 {
            for to in from..=23u64 {
                let (bytes, _) = read(&mut registry, handle, from, to, &truth);
                assert_eq!(bytes.as_slice(), &truth[from as usize..to as usize]);
            }
        }
    }
}

#[test]
fn repeated_read_is_served_from_the_cache() {
    let truth = content(10000);
    let mut registry = HandleRegistry::new();
    let handle = open(&mut registry, "f", 1024, 10000);

    let (first, fetches) = read(&mut registry, handle, 1000, 7000, &truth);
    assert_eq!(fetches, 7);
    let (second, fetches) = read(&mut registry, handle, 1000, 7000, &truth);
    assert_eq!(fetches, 0);
    assert_eq!(first.as_slice(), second.as_slice());
}

#[test]
fn read_across_chunks_does_not_depend_on_the_chunk_size() {
    let truth = content(9001);
    let mut results: Vec<Vec<u8>> = Vec::new();
    for chunk_size in [1u64, 17, 4096, 9001] {
        let mut registry = HandleRegistry::new();
        let handle = open(&mut registry, "f", chunk_size, 9001);
        let (bytes, _) = read(&mut registry, handle, 33, 8999, &truth);
        results.push(bytes.as_slice().to_vec());
    }
    for bytes in results.iter() {
        assert_eq!(&bytes[..], &truth[33..8999]);
    }
}

#[test]
fn read_inside_one_chunk_is_a_slice_of_the_chunk() {
    let truth = content(100);
    let mut registry = HandleRegistry::new();
    let handle = open(&mut registry, "f", 40, 100);
    assert_eq!(serve(&mut registry, handle, &[1], &truth), 1);

    let bytes = expect_done(registry.file(handle).unwrap().read_bytes(45, 50));
    assert_eq!(bytes.as_slice(), &truth[45..50]);
    let whole = expect_done(registry.file(handle).unwrap().read_bytes(40, 80));
    assert_eq!(whole.as_slice(), &truth[40..80]);
}

#[test]
fn reads_inside_one_chunk_share_the_storage_of_the_chunk() {
    let truth = content(100);
    let mut registry = HandleRegistry::new();
    let handle = open(&mut registry, "f", 40, 100);
    assert_eq!(serve(&mut registry, handle, &[1], &truth), 1);

    let whole = expect_done(registry.file(handle).unwrap().read_bytes(40, 80));
    let inner = expect_done(registry.file(handle).unwrap().read_bytes(45, 50));
    let again = expect_done(registry.file(handle).unwrap().read_bytes(45, 50));
    // No byte was copied: the results point into one buffer.
    assert_eq!(inner.as_slice().as_ptr(), whole.as_slice()[5..].as_ptr());
    assert_eq!(inner.as_slice().as_ptr(), again.as_slice().as_ptr());
}

#[test]
fn resolved_range_lists_slices_and_chunks_to_read() {
    let truth = content(100);
    let mut registry = HandleRegistry::new();
    let handle = open(&mut registry, "f", 40, 100);
    assert_eq!(serve(&mut registry, handle, &[1], &truth), 1);

    let list = registry.file(handle).unwrap().get_toread_list(35, 95);
    assert_eq!(list.len(), 3);
    match &list[0] {
        MaybeToRead::ToRead(chunk, within) => {
            assert_eq!(*chunk, 0);
            assert_eq!(within.clone(), 35..40);
        }
        MaybeToRead::Done(_) => panic!("chunk 0 is not resident"),
    }
    match &list[1] {
        MaybeToRead::Done(bytes) => assert_eq!(bytes.as_slice(), &truth[40..80]),
        MaybeToRead::ToRead(..) => panic!("chunk 1 is resident"),
    }
    match &list[2] {
        MaybeToRead::ToRead(chunk, within) => {
            assert_eq!(*chunk, 2);
            assert_eq!(within.clone(), 0..15);
        }
        MaybeToRead::Done(_) => panic!("chunk 2 is not resident"),
    }
}

#[test]
fn chunk_range_follows_the_geometry() {
    let mut registry = HandleRegistry::new();
    let handle = open(&mut registry, "f", 4096, 10000);
    let file = registry.file(handle).unwrap();
    assert_eq!(file.path(), "f");
    assert_eq!(file.len(), 10000);
    assert_eq!(file.chunk_size(), 4096);
    assert_eq!(file.chunk_range(0), Some(0..4096));
    assert_eq!(file.chunk_range(1), Some(4096..8192));
    assert_eq!(file.chunk_range(2), Some(8192..10000));
    assert_eq!(file.chunk_range(3), None);
    assert_eq!(file.chunk_range(u64::MAX), None);

    let handle = open(&mut registry, "g", 4096, 8192);
    let file = registry.file(handle).unwrap();
    assert_eq!(file.chunk_range(1), Some(4096..8192));
    assert_eq!(file.chunk_range(2), None);

    let handle = open(&mut registry, "empty", 4096, 0);
    assert_eq!(registry.file(handle).unwrap().chunk_range(0), None);
}

#[test]
fn whole_file_is_read_from_first_to_last_byte() {
    let truth = content(300);
    let mut registry = HandleRegistry::new();
    let handle = open(&mut registry, "f", 128, 300);
    let todo = expect_fetch(registry.file(handle).unwrap().read_all());
    assert_eq!(todo, vec![0, 1, 2]);
    serve(&mut registry, handle, &todo, &truth);
    let bytes = expect_done(registry.file(handle).unwrap().read_all());
    assert_eq!(bytes.as_slice(), &truth[..]);

    let handle = open(&mut registry, "empty", 128, 0);
    let bytes = expect_done(registry.file(handle).unwrap().read_all());
    assert!(bytes.is_empty());
}

#[test]
fn short_or_long_chunk_is_a_transfer_failure() {
    let truth = content(100);
    let mut registry = HandleRegistry::new();
    let handle = open(&mut registry, "f", 40, 100);

    assert_eq!(
        registry.insert_chunk(handle, 0, truth[0..39].to_vec()),
        Err(FetchError::TransferFailure)
    );
    assert_eq!(
        registry.insert_chunk(handle, 0, truth[0..41].to_vec()),
        Err(FetchError::TransferFailure)
    );
    assert_eq!(registry.insert_chunk(handle, 0, Vec::new()), Err(FetchError::TransferFailure));
    assert_eq!(
        registry.insert_chunk(handle, 2, truth[40..80].to_vec()),
        Err(FetchError::TransferFailure)
    );
    // Nothing became resident.
    let todo = expect_fetch(registry.file(handle).unwrap().read_bytes(0, 100));
    assert_eq!(todo, vec![0, 1, 2]);
    // The last chunk is the short one.
    assert_eq!(registry.insert_chunk(handle, 2, truth[80..100].to_vec()), Ok(()));
    let todo = expect_fetch(registry.file(handle).unwrap().read_bytes(0, 100));
    assert_eq!(todo, vec![0, 1]);
}

#[test]
fn chunk_outside_the_file_is_a_transfer_failure() {
    let mut registry = HandleRegistry::new();
    let handle = open(&mut registry, "f", 40, 100);
    assert_eq!(registry.insert_chunk(handle, 3, Vec::new()), Err(FetchError::TransferFailure));
    assert_eq!(registry.insert_chunk(handle, 3, vec![0; 40]), Err(FetchError::TransferFailure));
    assert_eq!(
        registry.insert_chunk(handle, u64::MAX, vec![0; 40]),
        Err(FetchError::TransferFailure)
    );
}

#[test]
fn resident_chunk_keeps_its_bytes() {
    let truth = content(100);
    let mut registry = HandleRegistry::new();
    let handle = open(&mut registry, "f", 40, 100);
    assert_eq!(registry.insert_chunk(handle, 1, truth[40..80].to_vec()), Ok(()));
    assert_eq!(registry.insert_chunk(handle, 1, vec![0; 40]), Ok(()));
    let bytes = expect_done(registry.file(handle).unwrap().read_bytes(40, 80));
    assert_eq!(bytes.as_slice(), &truth[40..80]);
}
