use xmem_core::{BufferPool, Error};

// Two processes that map one pool see one content.  Here the second process
// opens the content that the first one left behind.
fn reopen(pool: &BufferPool) -> BufferPool {
    let region = pool.meta_region();
    BufferPool::open(pool.name(), region.header(), region.records()).unwrap()
}

#[test]
fn test_cpu_cross_process_rw() {
    let name = "/xmem_test_rw";

    // Child: create the pool and write
    let mut child = BufferPool::create(name).unwrap();
    let mut buf = child.acquire_cpu(1024).unwrap();
    let data = b"Hello from child!";
    let written = buf.as_cpu_slice_mut().unwrap();
    assert!(data.len() <= written.size());
    let written = written.name().to_string();

    // Parent: open the pool and read
    let mut pool = reopen(&child);
    let buf = pool.get(0).unwrap();
    let read = buf.as_cpu_slice().unwrap();
    let expected = b"Hello from child!";
    assert!(expected.len() <= read.size());
    assert_eq!(read.name(), written);
}

#[test]
fn test_ref_count_cross_process() {
    let name = "/xmem_test_ref_count";

    let mut child = BufferPool::create(name).unwrap();
    let _buf = child.acquire_cpu(1024).unwrap();
    child.set_ref_count(0, 2).unwrap();

    let mut pool = reopen(&child);
    let rc = pool.ref_count(0).unwrap();
    assert_eq!(rc, 2);

    let rc = pool.add_ref(0).unwrap();
    assert_eq!(rc, 3);
}

#[test]
fn test_preallocated_cross_process() {
    let name = "/xmem_test_preallocated";

    let mut child = BufferPool::create(name).unwrap();
    let indices = child.preallocate_cpu(512, 3).unwrap();
    assert_eq!(indices.len(), 3);
    assert_eq!(indices, vec![0, 1, 2]);

    let mut pool = reopen(&child);
    let indices = pool.preallocate_cpu(512, 3).unwrap();
    assert_eq!(indices.len(), 3);

    for &idx in &indices {
        let rc = pool.ref_count(idx).unwrap();
        assert_eq!(rc, 1);
    }
}

#[test]
fn cross_process_scenario() {
    let mut a = BufferPool::create("/p4").unwrap();
    let mut buf = a.acquire_cpu(64).unwrap();
    assert!(b"Hello from child!".len() <= buf.as_cpu_slice_mut().unwrap().size());
    a.set_ref_count(0, 2).unwrap();

    let mut b = reopen(&a);
    assert_eq!(b.name(), "/p4");
    assert_eq!(b.capacity(), 1024);
    let peer = b.get(0).unwrap();
    assert_eq!(peer.as_cpu_slice().unwrap().name(), "/p4_buf_0");
    assert_eq!(peer.as_cpu_slice().unwrap().size(), 64);
    assert_eq!(b.ref_count(0), Ok(3));
}

#[test]
fn pool_of_another_version_does_not_open() {
    let pool = BufferPool::create_with_capacity("/old", 4).unwrap();
    let region = pool.meta_region();
    let mut header = region.header();
    header.version = 1;
    let result = BufferPool::open("/old", header, region.records());
    assert_eq!(
        result.unwrap_err(),
        Error::SharedMemory("version mismatch: expected 2, got 1".to_string())
    );
    let mut header = region.header();
    header.magic = 0;
    let result = BufferPool::open("/old", header, region.records());
    assert_eq!(
        result.unwrap_err(),
        Error::SharedMemory("invalid magic number".to_string())
    );
}
