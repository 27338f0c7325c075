use media_forge::cpu::CpuControl;
use media_forge::process::ProcessManager;

#[test]
fn thread_count_defaults_to_three_quarters_rounded_up() {
    assert_eq!(CpuControl::thread_count_for(8, None), 6);
    assert_eq!(CpuControl::thread_count_for(5, None), 4);
    assert_eq!(CpuControl::thread_count_for(1, None), 1);
}

#[test]
fn thread_count_clamps_requests() {
    assert_eq!(CpuControl::thread_count_for(8, Some(0)), 1);
    assert_eq!(CpuControl::thread_count_for(8, Some(100)), 12);
    assert_eq!(CpuControl::thread_count_for(3, Some(100)), 5);
    assert_eq!(CpuControl::thread_count_for(8, Some(7)), 7);
    let n = CpuControl::get_thread_count(Some(1));
    assert_eq!(n, 1);
}

#[test]
fn process_registry_tracks_and_clears() {
    let mut m = ProcessManager::new();
    m.register(10);
    m.register(20);
    m.register(10);
    assert!(m.is_registered(10));
    m.unregister(10);
    assert!(!m.is_registered(10));
    assert!(m.is_registered(20));
    let mut all = m.take_all();
    all.sort();
    assert_eq!(all, vec![20]);
    assert!(!m.is_registered(20));
    assert!(m.take_all().is_empty());
}
