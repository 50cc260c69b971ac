use autocopy::utils::{get_database_path, get_lockfile_path};

#[test]
fn database_path_is_inside_data_folder() {
    assert_eq!(
        get_database_path("/home/me/.config/AutoCopy"),
        "/home/me/.config/AutoCopy/data.sqlite"
    );
}

#[test]
fn lockfile_path_is_inside_data_folder() {
    assert_eq!(
        get_lockfile_path("/home/me/.config/AutoCopy"),
        "/home/me/.config/AutoCopy/lock.data"
    );
}

#[test]
fn no_double_separator() {
    assert_eq!(get_lockfile_path("/data/"), "/data/lock.data");
}
