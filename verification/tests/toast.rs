use mapgen::toast::{has_toast_popups, ToastPopup, DEFAULT_TOAST_TIME};

#[test]
fn default_time_is_two_seconds() {
    let toast = ToastPopup::new_with_default_time(String::from("Saved!"));
    assert_eq!(toast.time, 2000);
    assert_eq!(toast.time, DEFAULT_TOAST_TIME);
    assert_eq!(toast.message, "Saved!");
    assert!(!toast.visible);
    assert!(!toast.timer_started);
}

#[test]
fn becoming_visible_arms_the_timer_once() {
    let mut toast = ToastPopup::new(String::from("hello"), 1500);
    assert!(toast.set_visible(true), "first show schedules the close");
    assert!(toast.is_visible());
    assert!(toast.timer_started);
    assert!(!toast.set_visible(true), "a second show schedules nothing");
    assert!(!toast.set_visible(false), "hiding schedules nothing");
    assert!(!toast.is_visible());
    assert!(toast.timer_started, "the armed timer stays armed");
}

#[test]
fn hiding_does_not_arm_the_timer() {
    let mut toast = ToastPopup::new(String::from("quiet"), 100);
    assert!(!toast.set_visible(false));
    assert!(!toast.timer_started);
}

#[test]
fn clone_resets_the_timer_flag() {
    let mut toast = ToastPopup::new(String::from("copy me"), 800);
    toast.set_visible(true);
    let copy = toast.clone();
    assert_eq!(copy.message, "copy me");
    assert_eq!(copy.time, 800);
    assert!(copy.visible);
    assert!(!copy.timer_started, "a clone starts with a fresh timer");
}

#[test]
fn has_toast_popups_sees_only_visible_toasts() {
    let mut a = ToastPopup::new_with_default_time(String::from("a"));
    let b = ToastPopup::new_with_default_time(String::from("b"));
    let empty: Vec<ToastPopup> = Vec::new();
    assert!(!has_toast_popups(&empty));
    assert!(!has_toast_popups(&vec![a.clone(), b.clone()]));
    a.set_visible(true);
    assert!(has_toast_popups(&vec![a, b]));
}
