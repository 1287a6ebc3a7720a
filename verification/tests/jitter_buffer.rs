use softphone::media::jitter::JitterBuffer;

#[test]
fn samples_come_out_in_order() {
    let mut jb: JitterBuffer<i32> = JitterBuffer::new(8);
    jb.push(vec![1, 2, 3]);
    jb.push(vec![4]);
    assert_eq!(jb.pop(2), vec![1, 2]);
    assert_eq!(jb.pop(10), vec![3, 4]);
    assert!(jb.pop(1).is_empty());
}

#[test]
fn oldest_samples_are_dropped_first() {
    let mut jb: JitterBuffer<f32> = JitterBuffer::new(4);
    jb.push(vec![1.0, 2.0, 3.0]);
    jb.push(vec![4.0, 5.0]);
    assert_eq!(jb.pop(4), vec![2.0, 3.0, 4.0, 5.0]);
    jb.push(vec![6.0, 7.0, 8.0, 9.0]);
    jb.push(vec![10.0, 11.0, 12.0, 13.0]);
    assert_eq!(jb.pop(8), vec![10.0, 11.0, 12.0, 13.0]);
}
