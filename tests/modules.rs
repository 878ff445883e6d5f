use sighunter::modules::{is_ignored_module, modules_to_scan};

fn strings(items: &[&str]) -> Vec<String> {
    items.iter().map(|s| s.to_string()).collect()
}

#[test]
fn listed_module_is_ignored() {
    let ignored = strings(&["ntdll.dll", "kernel32.dll"]);
    assert!(is_ignored_module(&"kernel32.dll".to_string(), &ignored));
    assert!(!is_ignored_module(&"game.exe".to_string(), &ignored));
    assert!(!is_ignored_module(&"Kernel32.dll".to_string(), &ignored));
}

#[test]
fn all_modules_scanned_without_filter() {
    let names = strings(&["game.exe", "ntdll.dll", "engine.dll"]);
    let ignored = strings(&["ntdll.dll"]);
    assert_eq!(modules_to_scan(&names, &ignored, false), vec![0, 1, 2]);
}

#[test]
fn listed_modules_left_out_with_filter() {
    let names = strings(&["game.exe", "ntdll.dll", "engine.dll", "user32.dll"]);
    let ignored = strings(&["ntdll.dll", "user32.dll"]);
    assert_eq!(modules_to_scan(&names, &ignored, true), vec![0, 2]);
}

#[test]
fn no_modules_gives_nothing_to_scan() {
    let ignored = strings(&["ntdll.dll"]);
    assert_eq!(modules_to_scan(&Vec::new(), &ignored, true), Vec::<usize>::new());
}
