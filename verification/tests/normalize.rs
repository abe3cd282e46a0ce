use gsync::path::normalize_path;

fn pwd() -> String {
    String::from("/home/user/work")
}

#[test]
fn sync_normalize_path_relative_period() {
    let pwd = pwd();
    let p = "./example";

    assert_eq!(format!("{}{}", pwd, p), normalize_path(p, &pwd))
}

#[test]
fn sync_normalize_path_relative_no_period() {
    let pwd = pwd();
    let p = "example";

    assert_eq!(format!("{}/{}", pwd, p), normalize_path(p, &pwd))
}

#[test]
fn sync_normalize_path_absolute() {
    let pwd = pwd();
    let p = "/tmp/example";

    assert_eq!(p, normalize_path(p, &pwd))
}

#[test]
fn mod_normalize_path_relative_period() {
    let pwd = pwd();
    let p = "./example";

    assert_eq!(format!("{}{}", pwd, p), normalize_path(p, &pwd))
}

#[test]
fn mod_normalize_path_relative_no_period() {
    let pwd = pwd();
    let p = "example";

    assert_eq!(format!("{}/{}", pwd, p), normalize_path(p, &pwd))
}

#[test]
fn mod_normalize_path_absolute() {
    let pwd = pwd();
    let p = "/tmp/example";

    assert_eq!(p, normalize_path(p, &pwd))
}
