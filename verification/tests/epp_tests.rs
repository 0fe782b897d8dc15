use resourced::epp::{epp_file_path, epp_value_text, epp_write_for_core, epp_writes, epp_writes_for_all_cores};
use resourced::monitor::MonitorState;

#[test]
fn path_of_core() {
    assert_eq!(
        epp_file_path(0),
        "/sys/devices/system/cpu/cpu0/cpufreq/energy_performance_preference"
    );
    assert_eq!(
        epp_file_path(12),
        "/sys/devices/system/cpu/cpu12/cpufreq/energy_performance_preference"
    );
}

#[test]
fn value_text() {
    assert_eq!(epp_value_text(33), "33");
    assert_eq!(epp_value_text(128), "128");
    assert_eq!(epp_value_text(192), "192");
}

#[test]
fn write_for_one_core() {
    let w = epp_write_for_core(3, 128);
    assert_eq!(w.core, 3);
    assert_eq!(w.path, "/sys/devices/system/cpu/cpu3/cpufreq/energy_performance_preference");
    assert_eq!(w.value, "128");
}

#[test]
fn writes_cover_cores_in_order() {
    let ws = epp_writes(3, 192);
    assert_eq!(ws.len(), 3);
    for (i, w) in ws.iter().enumerate() {
        assert_eq!(w.core as usize, i);
        assert_eq!(w.path, format!("/sys/devices/system/cpu/cpu{}/cpufreq/energy_performance_preference", i));
        assert_eq!(w.value, "192");
    }
    assert!(epp_writes(0, 33).is_empty());
}

#[test]
fn paths_are_distinct() {
    let ws = epp_writes(40, 33);
    for a in 0..ws.len() {
        for b in 0..ws.len() {
            if a != b {
                assert_ne!(ws[a].path, ws[b].path);
            }
        }
    }
}

#[test]
fn all_cores_of_this_machine() {
    let ws = epp_writes_for_all_cores(128);
    assert!(ws.len() >= 1);
    assert_eq!(ws.len(), num_cpus::get());
    assert_eq!(MonitorState::new().core_count(), ws.len());
    assert_eq!(ws[0].path, "/sys/devices/system/cpu/cpu0/cpufreq/energy_performance_preference");
}

fn apply(files: &mut std::collections::HashMap<String, String>, ws: &[resourced::epp::EppWrite]) {
    for w in ws {
        files.insert(w.path.clone(), w.value.clone());
    }
}

#[test]
fn last_setting_wins() {
    let mut files = std::collections::HashMap::new();
    files.insert("/other".to_string(), "x".to_string());
    let mut only_b = files.clone();
    apply(&mut files, &epp_writes(4, 33));
    apply(&mut files, &epp_writes(4, 192));
    apply(&mut only_b, &epp_writes(4, 192));
    assert_eq!(files, only_b);
    assert_eq!(files.len(), 5);
    assert_eq!(files["/sys/devices/system/cpu/cpu2/cpufreq/energy_performance_preference"], "192");
    let mut once = std::collections::HashMap::new();
    apply(&mut once, &[epp_write_for_core(1, 128)]);
    let mut twice = once.clone();
    apply(&mut twice, &[epp_write_for_core(1, 128)]);
    assert_eq!(once, twice);
}
