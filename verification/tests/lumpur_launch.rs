use lunamisc::lumpur::{
    automatic_directory, carried_over_path, default_command, CleanTarget, LaunchTime, LumpurBuilder,
    NewWorkingDirectory, PathReference,
};

#[test]
fn automatic_directory_is_named_after_the_launch() {
    let t = LaunchTime { year: 2024, month: 3, day: 9, hour: 7, minute: 5, second: 42 };
    let dirs = automatic_directory(&t);
    assert_eq!(dirs, vec!["output".to_owned(), "2024-03-09".to_owned(), "07;05;42".to_owned()]);
}

#[test]
fn automatic_directory_of_a_late_time() {
    let t = LaunchTime { year: 1999, month: 12, day: 31, hour: 23, minute: 59, second: 59 };
    assert_eq!(automatic_directory(&t)[1], "1999-12-31");
    assert_eq!(automatic_directory(&t)[2], "23;59;59");
}

#[test]
fn clean_command_in_either_spelling() {
    assert_eq!(default_command("clean", &NewWorkingDirectory::Current), Some(CleanTarget::LogFile));
    assert_eq!(
        default_command("Clean", &NewWorkingDirectory::Automatic),
        Some(CleanTarget::OutputDirectory)
    );
    assert_eq!(
        default_command("clean", &NewWorkingDirectory::Custom("runs".to_owned())),
        Some(CleanTarget::LogFileIn("runs".to_owned()))
    );
    assert_eq!(default_command("CLEAN", &NewWorkingDirectory::Current), None);
    assert_eq!(default_command("run", &NewWorkingDirectory::Current), None);
}

#[test]
fn builder_defaults_and_settings() {
    let b = LumpurBuilder::default();
    assert!(matches!(b.new_working_directory, NewWorkingDirectory::Automatic));
    assert!(b.default_commands);
    assert!(matches!(&b.path_reference[..], [PathReference::Copy(p)] if p == "app-config.toml"));
    let b = b
        .new_working_directory(NewWorkingDirectory::Current)
        .symlink_path("data")
        .copy_file("notes.txt")
        .set_default_commands(false);
    assert!(matches!(b.new_working_directory, NewWorkingDirectory::Current));
    assert!(!b.default_commands);
    assert_eq!(b.path_reference.len(), 3);
    assert!(matches!(&b.path_reference[1], PathReference::Symlink(p) if p == "data"));
    assert!(matches!(&b.path_reference[2], PathReference::Copy(p) if p == "notes.txt"));
}

#[test]
fn working_directory_paths() {
    assert_eq!(NewWorkingDirectory::Current.into_path_buf(), None);
    assert_eq!(
        NewWorkingDirectory::Custom("runs".to_owned()).into_path_buf(),
        Some(vec!["runs".to_owned()])
    );
    let auto = NewWorkingDirectory::Automatic.into_path_buf().unwrap();
    assert_eq!(auto.len(), 3);
    assert_eq!(auto[0], "output");
}

fn parts(p: &str) -> Vec<String> {
    p.split('/').map(|s| s.to_owned()).collect()
}

#[test]
fn carried_over_files_keep_their_place() {
    let current = parts("home/u/proj");
    let new_dir = parts("home/u/proj/output/2024-03-09/07;05;42");
    assert_eq!(
        carried_over_path(&current, &parts("home/u/proj/conf/a.toml"), &new_dir),
        Some(parts("home/u/proj/output/2024-03-09/07;05;42/conf/a.toml"))
    );
    assert_eq!(carried_over_path(&current, &parts("etc/passwd"), &new_dir), None);
    assert_eq!(carried_over_path(&current, &parts("home/u/proj"), &new_dir), None);
    assert_eq!(carried_over_path(&current, &parts("home/u/other/a.toml"), &new_dir), None);
}
