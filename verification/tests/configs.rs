use gsync::api::drive::{corpora, folder_query, get_id, media_type, mime_type, IdPool};
use gsync::api::{ErrorData, GoogleError, GoogleResponse};
use gsync::config::{option_str_string, option_unwrap_text, Configuration};
use gsync::env::{get_db_path, Env};
use gsync::error::Error;

fn config(id: Option<&str>, secret: Option<&str>, files: Option<&str>, drive: Option<&str>) -> Configuration {
    Configuration {
        client_id: id.map(String::from),
        client_secret: secret.map(String::from),
        input_files: files.map(String::from),
        drive_id: drive.map(String::from),
    }
}

#[test]
fn empty_configuration_is_empty() {
    assert!(Configuration::empty().is_empty());
    assert_eq!(Configuration::empty(), config(None, None, None, None));
}

#[test]
fn a_configuration_with_any_part_is_not_empty() {
    assert!(!config(Some("i"), None, None, None).is_empty());
    assert!(!config(None, Some("s"), None, None).is_empty());
    assert!(!config(None, None, Some("f"), None).is_empty());
    assert!(!config(None, None, None, Some("d")).is_empty());
}

#[test]
fn is_complete_names_the_first_missing_part() {
    assert_eq!(config(None, None, None, None).is_complete(), (false, "'client_id' is empty"));
    assert_eq!(
        config(Some("i"), None, None, Some("d")).is_complete(),
        (false, "'client_secret' is empty")
    );
    assert_eq!(
        config(Some("i"), Some("s"), None, None).is_complete(),
        (false, "'input_files' is empty")
    );
}

#[test]
fn is_complete_does_not_ask_for_a_drive() {
    assert_eq!(config(Some("i"), Some("s"), Some("f"), None).is_complete(), (true, ""));
    assert_eq!(config(Some("i"), Some("s"), Some("f"), Some("d")).is_complete(), (true, ""));
}

#[test]
fn merge_prefers_the_first_configuration() {
    let a = config(Some("a-id"), None, Some("a-files"), None);
    let b = config(Some("b-id"), Some("b-secret"), None, None);
    assert_eq!(
        Configuration::merge(a, b),
        config(Some("a-id"), Some("b-secret"), Some("a-files"), None)
    );
}

#[test]
fn merge_with_the_empty_configuration_changes_nothing() {
    let a = config(Some("i"), Some("s"), Some("f"), Some("d"));
    assert_eq!(Configuration::merge(a.clone(), Configuration::empty()), a);
    assert_eq!(Configuration::merge(Configuration::empty(), a.clone()), a);
}

#[test]
fn input_roots_are_cut_at_commas_and_made_absolute() {
    let c = config(None, None, Some("/x/y,docs,./z"), None);
    assert_eq!(
        c.input_roots("/w"),
        vec![String::from("/x/y"), String::from("/w/docs"), String::from("/w./z")]
    );
}

#[test]
fn input_roots_keep_empty_pieces() {
    let c = config(None, None, Some("a,,"), None);
    assert_eq!(
        c.input_roots("/w"),
        vec![String::from("/w/a"), String::from("/w/"), String::from("/w/")]
    );
    let d = config(None, None, Some(""), None);
    assert_eq!(d.input_roots("/w"), vec![String::from("/w/")]);
}

#[test]
fn option_str_string_copies_the_text() {
    assert_eq!(option_str_string(Some("abc")), Some(String::from("abc")));
    assert_eq!(option_str_string(None), None);
}

#[test]
fn option_unwrap_text_shows_none() {
    assert_eq!(option_unwrap_text(Some(String::from("abc"))), "abc");
    assert_eq!(option_unwrap_text(None), "None");
}

#[test]
fn db_path_lies_below_the_home_directory() {
    assert_eq!(get_db_path("/home/u"), "/home/u/.gsync/");
}

#[test]
fn database_file_lies_in_the_directory() {
    assert_eq!(Env::empty(String::from("/home/u/.gsync/")).database(), "/home/u/.gsync/data.db3");
    assert_eq!(Env::empty(String::from("/home/u/.gsync")).database(), "/home/u/.gsync/data.db3");
    assert_eq!(Env::empty(String::new()).database(), "data.db3");
}

#[test]
fn env_holds_what_it_was_given() {
    let env = Env::new(String::from("/db/"), "id", "secret", Some("drive"), "root");
    assert_eq!(env.db, "/db/");
    assert_eq!(env.client_id, "id");
    assert_eq!(env.client_secret, "secret");
    assert_eq!(env.drive_id, Some(String::from("drive")));
    assert_eq!(env.root_folder, "root");
    let bare = Env::empty(String::from("/db/"));
    assert_eq!(bare.client_id, "");
    assert_eq!(bare.drive_id, None);
}

#[test]
fn mime_type_goes_by_the_extension() {
    assert_eq!(mime_type("/a/notes.txt"), "text/plain");
    assert_eq!(mime_type("/a/picture.PNG"), "image/png");
    assert_eq!(mime_type("/a/page.html"), "text/html");
}

#[test]
fn mime_type_of_an_unknown_extension_is_that_of_bytes() {
    assert_eq!(mime_type("/a/file"), "application/octet-stream");
    assert_eq!(mime_type("/a/file.unknown-extension"), "application/octet-stream");
}

#[test]
fn media_type_takes_the_guess() {
    assert_eq!(media_type(Some(String::from("text/x"))), "text/x");
    assert_eq!(media_type(None), "application/octet-stream");
}

#[test]
fn corpora_is_the_drive_where_one_is_used() {
    assert_eq!(corpora(Some("d")), "drive");
    assert_eq!(corpora(None), "user");
}

#[test]
fn folder_query_names_the_folder_and_its_parent() {
    assert_eq!(
        folder_query("docs", "parent-id"),
        "name = 'docs' and mimeType = 'application/vnd.google-apps.folder' and 'parent-id' in parents"
    );
}

#[test]
fn get_id_takes_the_last_identifier() {
    let mut pool = IdPool::new();
    assert!(pool.is_empty());
    assert_eq!(get_id(&mut pool), None);
    pool.replenish(vec![String::from("a"), String::from("b")]);
    assert!(!pool.is_empty());
    assert_eq!(get_id(&mut pool), Some(String::from("b")));
    assert_eq!(get_id(&mut pool), Some(String::from("a")));
    assert_eq!(get_id(&mut pool), None);
}

#[test]
fn replenish_replaces_what_the_pool_holds() {
    let mut pool = IdPool::new();
    pool.replenish(vec![String::from("a")]);
    pool.replenish(vec![String::from("c"), String::from("d")]);
    assert_eq!(get_id(&mut pool), Some(String::from("d")));
    assert_eq!(get_id(&mut pool), Some(String::from("c")));
    assert_eq!(get_id(&mut pool), None);
}

fn not_found() -> GoogleError {
    GoogleError {
        code: 404,
        message: String::from("File not found: abc."),
        errors: vec![ErrorData {
            domain: String::from("global"),
            reason: String::from("notFound"),
            message: String::from("File not found: abc."),
            location_type: Some(String::from("parameter")),
            location: None,
        }],
    }
}

#[test]
fn a_response_with_an_error_is_the_error() {
    let response: GoogleResponse<u8> = GoogleResponse { data: Some(1), error: Some(not_found()) };
    assert_eq!(response.into_result(), Err(Error::GoogleError(not_found())));
    let bare: GoogleResponse<u8> = GoogleResponse { data: None, error: Some(not_found()) };
    assert_eq!(bare.into_result(), Err(Error::GoogleError(not_found())));
}

#[test]
fn a_response_without_an_error_is_its_payload() {
    let response: GoogleResponse<u8> = GoogleResponse { data: Some(1), error: None };
    assert_eq!(response.into_result(), Ok(1));
}

#[test]
fn errors_are_copied_whole() {
    let error = Error::GoogleError(not_found());
    assert_eq!(error.duplicate(), error);
    let other = Error::DatabaseError(String::from("locked"));
    assert_eq!(other.duplicate(), other);
}
