//! What a run needs to know of its surroundings.

use vstd::prelude::*;
use crate::api::optional_text;
use crate::text::characters;

verus! {

/// The surroundings of a run.
#[derive(Debug, Clone, PartialEq, Eq)]
pub struct Env {
    /// The directory that holds the database.
    pub db: String,
    pub client_id: String,
    pub client_secret: String,
    /// The shared drive to sync to, where one is used.
    pub drive_id: Option<String>,
    /// The remote folder that the roots of the local tree belong under.
    pub root_folder: String,
}

/// The mathematical value of an [`Env`].
pub struct Surroundings {
    pub db: Seq<char>,
    pub client_id: Seq<char>,
    pub client_secret: Seq<char>,
    pub drive_id: Option<Seq<char>>,
    pub root_folder: Seq<char>,
}

impl View for Env {
    type V = Surroundings;

    open spec fn view(&self) -> Surroundings {
        Surroundings {
            db: self.db@,
            client_id: self.client_id@,
            client_secret: self.client_secret@,
            drive_id: optional_text(self.drive_id),
            root_folder: self.root_folder@,
        }
    }
}

/// The directory of the database below the home directory `home`.
pub open spec fn db_path(home: Seq<char>) -> Seq<char> {
    home + "/.gsync/"@
}

/// The file of the database in the directory `db`: the file name behind
/// the directory, with a separator between them where the directory is not
/// empty and does not end in one.
pub open spec fn database_file(db: Seq<char>) -> Seq<char> {
    if db.len() == 0 || db.last() == '/' {
        db + "data.db3"@
    } else {
        db + "/"@ + "data.db3"@
    }
}

/// The directory of the database below the home directory `home`.
pub fn get_db_path(home: &str) -> (db: String)
    ensures
        db@ == db_path(home@),
{
    let mut db = String::from_str(home);
    db.append("/.gsync/");
    db
}

impl Env {
    /// The surroundings of a run with the given credentials.
    pub fn new(db: String, id: &str, secret: &str, drive_id: Option<&str>, root_folder: &str) -> (env:
        Env)
        ensures
            env@ == (Surroundings {
                db: db@,
                client_id: id@,
                client_secret: secret@,
                drive_id: match drive_id {
                    Some(drive) => Some(drive@),
                    None => None,
                },
                root_folder: root_folder@,
            }),
    {
        Env {
            db,
            client_secret: String::from_str(secret),
            client_id: String::from_str(id),
            drive_id: match drive_id {
                Some(drive) => Some(String::from_str(drive)),
                None => None,
            },
            root_folder: String::from_str(root_folder),
        }
    }

    /// The surroundings of a run of which only the database is known.
    pub fn empty(db: String) -> (env: Env)
        ensures
            env@ == (Surroundings {
                db: db@,
                client_id: Seq::empty(),
                client_secret: Seq::empty(),
                drive_id: None,
                root_folder: Seq::empty(),
            }),
    {
        Env {
            db,
            client_id: String::new(),
            client_secret: String::new(),
            drive_id: None,
            root_folder: String::new(),
        }
    }

    /// The file of the database.
    pub fn database(&self) -> (file: String)
        ensures
            file@ == database_file(self@.db),
    {
        let chars = characters(self.db.as_str());
        let mut file = self.db.clone();
        if chars.len() > 0 && chars[chars.len() - 1] != '/' {
            file.append("/");
        }
        file.append("data.db3");
        file
    }
}

} // verus!
