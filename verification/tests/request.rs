use kusanagi_kernel::{abbreviate, Naming, PutOutcome, Reach, Signer, WaypointError, Whose};

#[test]
fn a_walk_resumes_only_where_it_cannot_miss_a_segment() {
    assert!(!Reach::Whole.resumes(false, 5));
    assert!(Reach::Whole.resumes(true, 5));
    assert!(Reach::Head.resumes(false, 5));
    assert!(Reach::Above(5).resumes(false, 5));
    assert!(!Reach::Above(4).resumes(false, 5));
    assert!(Reach::Above(4).resumes(true, 5));
}

#[test]
fn a_handle_abbreviates_to_its_first_twelve_characters() {
    let handle = Signer::from_seed(&[1; 32]).handle();
    let short = abbreviate(&handle);
    assert_eq!(short.len(), 12);
    assert!(handle.to_string().starts_with(&short));
}

#[test]
fn the_request_words_are_distinct_values() {
    assert_ne!(Whose::Peer, Whose::Mine);
    assert_ne!(Naming::Ask, Naming::Clear);
    assert_eq!(Naming::Assign("Bob".to_owned()), Naming::Assign("Bob".to_owned()));
}

#[test]
fn a_read_owes_everything_or_what_sits_above_a_floor() {
    assert_eq!(kusanagi_kernel::reach(None), Reach::Whole);
    assert_eq!(kusanagi_kernel::reach(Some(7)), Reach::Above(7));
}

#[test]
fn two_flags_make_one_stance() {
    assert_eq!(kusanagi_kernel::stance(true, true), Some(true));
    assert_eq!(kusanagi_kernel::stance(false, true), Some(false));
    assert_eq!(kusanagi_kernel::stance(false, false), None);
}

#[test]
fn a_channel_name_is_plainly_a_name() {
    assert!(kusanagi_kernel::check_name("alice-2"));
    assert!(kusanagi_kernel::check_name(&"a".repeat(32)));
    assert!(!kusanagi_kernel::check_name(&"a".repeat(33)));
    assert!(!kusanagi_kernel::check_name(""));
    assert!(!kusanagi_kernel::check_name("../etc"));
    assert!(!kusanagi_kernel::check_name("Alice"));
}

#[test]
fn waypoint_error_codes_are_stable() {
    assert_eq!(WaypointError::OverwriteNotRefused.code(), "waypoint.overwrite_not_refused");
    assert_eq!(WaypointError::DeletionRefused.code(), "waypoint.deletion_refused");
    assert_eq!(WaypointError::Unwritten { action: "put" }.code(), "waypoint.unwritten");
    assert_eq!(
        WaypointError::Unanswered { action: "get", after: core::time::Duration::from_secs(3) }.code(),
        "waypoint.timeout"
    );
    assert_eq!(
        WaypointError::Io { action: "get", source: std::io::Error::other("down") }.code(),
        "waypoint.io"
    );
    assert_ne!(PutOutcome::Stored, PutOutcome::AlreadyPresent);
}
