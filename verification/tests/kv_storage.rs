use std::ops::Bound;
use tinykv::kv::error::TkvResult;
use tinykv::kv::order::{rank, Rank};
use tinykv::kv::server::{column_family_of, TinyKvService};
use tinykv::kv::storage::memory::MemoryStorage;
use tinykv::kv::storage::mutation::Mutation;
use tinykv::kv::storage::ByteArrayRangeBound;
use tinykv::kv::{ColumnFamily, KvIterator, Storage, StorageScanner};
use tinykv::proto::kvpb::{
    RawDeleteRequest, RawGetRequest, RawPutRequest, RawScanRequest,
};

fn setup() -> (MemoryStorage, ColumnFamily) {
    (MemoryStorage::new(), ColumnFamily::Default)
}

fn collect<I: KvIterator>(mut iter: I) -> TkvResult<Vec<(Vec<u8>, Vec<u8>)>> {
    let mut pairs = Vec::new();
    while let Some(item) = iter.next() {
        pairs.push(item?);
    }
    Ok(pairs)
}

// test storage point operations, i.e set, get, delete.
#[test]
fn point_operations() -> TkvResult<()> {
    let (mut storage, cf) = setup();

    // getting a missing key should return None.
    assert_eq!(storage.get(cf, b"a")?, None);

    // setting & getting a key should return its value
    storage.put(cf, b"a", vec![1])?;
    assert_eq!(storage.get(cf, b"a")?, Some(vec![1]));

    // setting a different key should not affect the first.
    storage.put(cf, b"b", vec![2])?;
    assert_eq!(storage.get(cf, b"b")?, Some(vec![2]));
    assert_eq!(storage.get(cf, b"a")?, Some(vec![1]));

    // getting a different non-existing key should return None.
    // strong comparison is case sensitive.
    assert_eq!(storage.get(cf, b"c")?, None);
    assert_eq!(storage.get(cf, b"A")?, None);

    // setting an existing key should replace its value.
    storage.put(cf, b"a", vec![0])?;
    assert_eq!(storage.get(cf, b"a")?, Some(vec![0]));

    // deleting a key should remove it, but not affect others.
    storage.delete(cf, b"a")?;
    assert_eq!(storage.get(cf, b"a")?, None);
    assert_eq!(storage.get(cf, b"b")?, Some(vec![2]));

    // deletes are idempotent.
    storage.delete(cf, b"a")?;
    assert_eq!(storage.get(cf, b"a")?, None);

    Ok(())
}

// tests storage on empty key and values
#[test]
fn point_operations_with_empty() -> TkvResult<()> {
    let (mut storage, cf) = setup();

    assert_eq!(storage.get(cf, b"")?, None);
    storage.put(cf, b"", vec![])?;
    assert_eq!(storage.get(cf, b"")?, Some(vec![]));
    storage.delete(cf, b"")?;
    assert_eq!(storage.get(cf, b"")?, None);
    Ok(())
}

// tests storage on values of increasing sizes, up to 16 MB.
#[test]
fn point_operations_sizes() -> TkvResult<()> {
    let (mut storage, cf) = setup();
    // generate values in increasing powers of two.
    for it in 1..=24 {
        let key = format!("x_{}", it).as_bytes().to_vec();
        let value = "x".repeat(1 << it).as_bytes().to_vec();

        assert_eq!(storage.get(cf, &key)?, None);
        storage.put(cf, &key, value.clone())?;
        assert_eq!(storage.get(cf, &key)?, Some(value));
        storage.delete(cf, &key)?;
        assert_eq!(storage.get(cf, &key)?, None);
    }
    Ok(())
}

#[test]
fn scan() -> TkvResult<()> {
    let (mut storage, cf) = setup();

    storage.put(cf, b"a", vec![1])?;
    storage.put(cf, b"b", vec![2])?;
    storage.put(cf, b"ba", vec![2, 1])?;
    storage.put(cf, b"bb", vec![2, 2])?;
    storage.put(cf, b"c", vec![3])?;
    storage.put(cf, b"C", vec![3])?;

    // forward scans.
    {
        let scanner =
            storage.scan(cf, Bound::Included(b"b".to_vec()), Bound::Excluded(b"bz".to_vec()))?;
        assert_eq!(
            collect(scanner.iter())?,
            vec![
                (b"b".to_vec(), vec![2]),
                (b"ba".to_vec(), vec![2, 1]),
                (b"bb".to_vec(), vec![2, 2])
            ],
        );
    }

    // full range.
    {
        let scanner = storage.scan(cf, Bound::Unbounded, Bound::Unbounded)?;
        assert_eq!(
            collect(scanner.iter())?,
            vec![
                (b"C".to_vec(), vec![3]),
                (b"a".to_vec(), vec![1]),
                (b"b".to_vec(), vec![2]),
                (b"ba".to_vec(), vec![2, 1]),
                (b"bb".to_vec(), vec![2, 2]),
                (b"c".to_vec(), vec![3]),
            ],
        );
    }

    Ok(())
}

#[test]
fn scan_with_half_open_and_closed_bounds() -> TkvResult<()> {
    let (mut storage, cf) = setup();
    for key in [&b"a"[..], b"b", b"ba", b"c"] {
        storage.put(cf, key, key.to_vec())?;
    }
    let keys = |start, end| -> TkvResult<Vec<Vec<u8>>> {
        let scanner = storage.scan(cf, start, end)?;
        Ok(collect(scanner.iter())?.into_iter().map(|(key, _)| key).collect())
    };
    assert_eq!(
        keys(Bound::Excluded(b"b".to_vec()), Bound::Unbounded)?,
        vec![b"ba".to_vec(), b"c".to_vec()]
    );
    assert_eq!(
        keys(Bound::Unbounded, Bound::Included(b"b".to_vec()))?,
        vec![b"a".to_vec(), b"b".to_vec()]
    );
    assert_eq!(
        keys(Bound::Included(b"b".to_vec()), Bound::Included(b"ba".to_vec()))?,
        vec![b"b".to_vec(), b"ba".to_vec()]
    );
    assert_eq!(
        keys(Bound::Included(b"d".to_vec()), Bound::Unbounded)?,
        Vec::<Vec<u8>>::new()
    );
    assert_eq!(
        keys(Bound::Excluded(b"c".to_vec()), Bound::Excluded(b"a".to_vec()))?,
        Vec::<Vec<u8>>::new()
    );
    Ok(())
}

#[test]
fn a_scan_stays_within_its_column_family() -> TkvResult<()> {
    let mut storage = MemoryStorage::new();
    storage.put(ColumnFamily::Default, b"a", vec![1])?;
    storage.put(ColumnFamily::Write, b"a", vec![2])?;
    storage.put(ColumnFamily::Lock, b"b", vec![3])?;
    assert_eq!(storage.len(), 3);
    for (cf, pairs) in [
        (ColumnFamily::Default, vec![(b"a".to_vec(), vec![1])]),
        (ColumnFamily::Write, vec![(b"a".to_vec(), vec![2])]),
        (ColumnFamily::Lock, vec![(b"b".to_vec(), vec![3])]),
    ] {
        let scanner = storage.scan(cf, Bound::Unbounded, Bound::Unbounded)?;
        assert_eq!(collect(scanner.iter())?, pairs);
        // a scanner can be walked again from its beginning
        assert_eq!(collect(scanner.iter())?.len(), 1);
    }
    assert_eq!(storage.get(ColumnFamily::Lock, b"a")?, None);
    Ok(())
}

#[test]
fn a_batch_is_applied_in_its_order() -> TkvResult<()> {
    let (mut storage, cf) = setup();
    storage.write(vec![
        Mutation::Put { key: b"k".to_vec(), value: vec![1], cf },
        Mutation::Put { key: b"l".to_vec(), value: vec![2], cf },
        Mutation::Delete { key: b"k".to_vec(), cf },
        Mutation::Put { key: b"l".to_vec(), value: vec![3], cf },
        Mutation::Put { key: b"k".to_vec(), value: vec![4], cf },
        Mutation::Delete { key: b"m".to_vec(), cf },
    ])?;
    assert_eq!(storage.get(cf, b"k")?, Some(vec![4]));
    assert_eq!(storage.get(cf, b"l")?, Some(vec![3]));
    assert_eq!(storage.get(cf, b"m")?, None);
    assert_eq!(storage.len(), 2);
    storage.write(vec![])?;
    assert_eq!(storage.len(), 2);
    assert!(storage.start().is_ok());
    assert!(storage.stop().is_ok());
    Ok(())
}

#[test]
fn keys_are_ranked_byte_by_byte() {
    assert_eq!(rank(b"", b""), Rank::Same);
    assert_eq!(rank(b"", b"a"), Rank::Before);
    assert_eq!(rank(b"a", b""), Rank::After);
    assert_eq!(rank(b"a", b"b"), Rank::Before);
    assert_eq!(rank(b"b", b"ab"), Rank::After);
    assert_eq!(rank(b"ab", b"abc"), Rank::Before);
    assert_eq!(rank(b"abc", b"abc"), Rank::Same);
    assert_eq!(rank(b"C", b"a"), Rank::Before);
    assert_eq!(rank(&[255], &[0, 0]), Rank::After);
}

#[test]
fn a_range_lends_out_its_bounds() {
    let range = ByteArrayRangeBound(Bound::Included(vec![1, 2]), Bound::Excluded(vec![3]));
    assert_eq!(range.start_bound(), Bound::Included(&[1u8, 2][..]));
    assert_eq!(range.end_bound(), Bound::Excluded(&[3u8][..]));
    let open = ByteArrayRangeBound(Bound::Unbounded, Bound::Unbounded);
    assert_eq!(open.start_bound(), Bound::Unbounded);
    assert_eq!(open.end_bound(), Bound::Unbounded);
}

fn get(key: &[u8], cf: &str) -> RawGetRequest {
    RawGetRequest { context: None, key: key.to_vec(), cf: cf.to_string() }
}

fn put(key: &[u8], value: &[u8], cf: &str) -> RawPutRequest {
    RawPutRequest { context: None, key: key.to_vec(), value: value.to_vec(), cf: cf.to_string() }
}

#[test]
fn the_service_stores_and_finds_values() -> TkvResult<()> {
    let mut service = TinyKvService::new(MemoryStorage::new());

    let missing = service.raw_get(get(b"a", "default"))?;
    assert!(missing.not_found);
    assert!(missing.value.is_empty());
    assert_eq!(missing.error, "");
    assert_eq!(missing.region_error, None);

    let stored = service.raw_put(put(b"a", &[1, 2], "default"))?;
    assert_eq!(stored.error, "");
    assert_eq!(stored.region_error, None);

    let found = service.raw_get(get(b"a", "default"))?;
    assert!(!found.not_found);
    assert_eq!(found.value, vec![1, 2]);

    // the same key in another column family is another key
    assert!(service.raw_get(get(b"a", "write"))?.not_found);

    let dropped = service.raw_delete(RawDeleteRequest {
        context: None,
        key: b"a".to_vec(),
        cf: "default".to_string(),
    })?;
    assert_eq!(dropped.error, "");
    assert!(service.raw_get(get(b"a", "default"))?.not_found);
    assert_eq!(service.storage().len(), 0);
    Ok(())
}

#[test]
fn the_service_scans_from_a_key_on() -> TkvResult<()> {
    let mut service = TinyKvService::new(MemoryStorage::new());
    for key in [&b"c"[..], b"a", b"bb", b"b"] {
        service.raw_put(put(key, key, "lock"))?;
    }
    service.raw_put(put(b"z", b"z", "write"))?;
    let response = service.raw_scan(RawScanRequest {
        context: None,
        start_key: b"b".to_vec(),
        limit: 0,
        cf: "lock".to_string(),
    })?;
    assert_eq!(response.error, "");
    let keys: Vec<Vec<u8>> = response.kvs.iter().map(|pair| pair.key.clone()).collect();
    assert_eq!(keys, vec![b"b".to_vec(), b"bb".to_vec(), b"c".to_vec()]);
    assert!(response.kvs.iter().all(|pair| pair.error.is_none() && pair.key == pair.value));
    Ok(())
}

#[test]
fn the_service_refuses_a_column_family_it_does_not_know() {
    let mut service = TinyKvService::new(MemoryStorage::new());
    assert_eq!(service.raw_get(get(b"a", "Default")).unwrap_err().0, "unknown column family");
    assert!(service.raw_put(put(b"a", b"b", "")).is_err());
    assert!(service
        .raw_delete(RawDeleteRequest { context: None, key: vec![], cf: "locks".to_string() })
        .is_err());
    assert!(service
        .raw_scan(RawScanRequest {
            context: None,
            start_key: vec![],
            limit: 1,
            cf: "x".to_string()
        })
        .is_err());
    assert_eq!(service.storage().len(), 0);
    assert_eq!(column_family_of("write").unwrap(), ColumnFamily::Write);
    assert_eq!(column_family_of("nope").unwrap_err().0, "unknown column family");
}
