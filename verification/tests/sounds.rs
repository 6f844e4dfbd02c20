use emergency_backup::sounds::{string_to_command, SoundList};

#[test]
fn test_string_to_command_known() {
    assert_eq!(string_to_command("start"), Some(SoundList::Start));
    assert_eq!(string_to_command("stop"), Some(SoundList::Stop));
    assert_eq!(string_to_command("correct"), Some(SoundList::Correct));
    assert_eq!(string_to_command("completed"), Some(SoundList::Completed));
}

#[test]
fn test_string_to_command_unknown() {
    assert_eq!(string_to_command(""), None);
    assert_eq!(string_to_command("Start"), None);
    assert_eq!(string_to_command("pause"), None);
}
