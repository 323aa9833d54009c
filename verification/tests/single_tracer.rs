use mmtk::util::up_trace::{set_local, sync_worker, up, UpLocal};

#[test]
fn a_thread_is_off_until_it_is_told() {
    let mut local = UpLocal::new();
    assert!(!up(&local));
    sync_worker(&mut local, true);
    assert!(up(&local));
    sync_worker(&mut local, false);
    assert!(!up(&local));
    set_local(&mut local, true);
    assert!(up(&local));
}
