use spsc_ring::mpsc::MPSC;

#[test]
fn empty_fanin_drains_to_nothing() {
    let mut m = MPSC::<i64>::new(1024);
    assert_eq!(m.batch_recv(), Vec::<i64>::new());
}

#[test]
fn four_publishers_disjoint_ranges() {
    let mut m = MPSC::<i64>::new(65536);
    let mut publishers: Vec<usize> = Vec::new();
    for _ in 0..4 {
        publishers.push(m.get_publisher());
    }
    for (i, &p) in publishers.iter().enumerate() {
        let i = i as i64;
        for v in (i * 50_000)..((i + 1) * 50_000) {
            m.push(p, v);
        }
    }
    let got = m.batch_recv();
    // one drain pass scans the publishers in order, so every integer in
    // [0, 200_000) arrives exactly once, and in order
    let expected: Vec<i64> = (0..200_000).collect();
    assert_eq!(got, expected);
    assert_eq!(m.batch_recv(), Vec::<i64>::new());
}

#[test]
fn interleaved_publishers_stay_contiguous_per_publisher() {
    let mut m = MPSC::<i64>::new(16);
    let p0 = m.get_publisher();
    let p1 = m.get_publisher();
    // pushes alternate between the publishers...
    for i in 0..5 {
        m.push(p0, i);
        m.push(p1, 100 + i);
    }
    // ...yet a drain pass delivers each publisher's items contiguously,
    // in push order, publishers in the order they were requested
    let got = m.batch_recv();
    assert_eq!(got, vec![0, 1, 2, 3, 4, 100, 101, 102, 103, 104]);
}

#[test]
fn borrowed_subscriber_drains_the_rings() {
    let mut m = MPSC::<i64>::new(8);
    let p0 = m.get_publisher();
    m.push(p0, 7);
    m.push(p0, 9);
    let sub = m.get_borrowed_subscriber();
    assert_eq!(sub.batch_recv(), vec![7, 9]);
    assert_eq!(m.batch_recv(), Vec::<i64>::new());
}

#[test]
fn publisher_indices_count_up() {
    let mut m = MPSC::<i64>::new(8);
    assert_eq!(m.get_publisher(), 0);
    assert_eq!(m.get_publisher(), 1);
    assert_eq!(m.get_publisher(), 2);
}

#[test]
fn per_publisher_capacity_is_realised_independently() {
    let mut m = MPSC::<i64>::new(7);
    let p0 = m.get_publisher();
    let p1 = m.get_publisher();
    // each ring realises capacity 8, so each holds 7 items
    for i in 0..7 {
        m.push(p0, i);
        m.push(p1, 10 + i);
    }
    let got = m.batch_recv();
    assert_eq!(got.len(), 14);
    assert_eq!(&got[..7], &[0, 1, 2, 3, 4, 5, 6]);
    assert_eq!(&got[7..], &[10, 11, 12, 13, 14, 15, 16]);
}
