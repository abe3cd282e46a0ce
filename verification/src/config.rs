//! The configuration that the user gives: the credentials of the
//! application, the local paths to sync, and the shared drive to sync to.

use vstd::prelude::*;
use crate::api::optional_text;
use crate::path::{normalize_path, normalized};
use crate::text::{characters, split, split_ranges, texts};

verus! {

/// What the user has configured; every part may be missing.
#[derive(Debug, Clone, PartialEq, Eq)]
pub struct Configuration {
    pub client_id: Option<String>,
    pub client_secret: Option<String>,
    /// The local paths to sync, separated by commas.
    pub input_files: Option<String>,
    pub drive_id: Option<String>,
}

/// The mathematical value of a [`Configuration`].
pub struct Settings {
    pub client_id: Option<Seq<char>>,
    pub client_secret: Option<Seq<char>>,
    pub input_files: Option<Seq<char>>,
    pub drive_id: Option<Seq<char>>,
}

impl View for Configuration {
    type V = Settings;

    open spec fn view(&self) -> Settings {
        Settings {
            client_id: optional_text(self.client_id),
            client_secret: optional_text(self.client_secret),
            input_files: optional_text(self.input_files),
            drive_id: optional_text(self.drive_id),
        }
    }
}

/// The character between the configured paths.
pub const LIST_SEPARATOR: char = ',';

/// What is missing of a configuration: the text that names the first part
/// that a complete configuration needs and this one lacks, or the empty
/// text.
pub open spec fn missing_part(settings: Settings) -> Seq<char> {
    if settings.client_id is None {
        "'client_id' is empty"@
    } else if settings.client_secret is None {
        "'client_secret' is empty"@
    } else if settings.input_files is None {
        "'input_files' is empty"@
    } else {
        ""@
    }
}

/// Either of two optional values, the first where it is there.
pub open spec fn either<T>(first: Option<T>, second: Option<T>) -> Option<T> {
    if first is Some {
        first
    } else {
        second
    }
}

/// The local paths that the configured list names, each made absolute
/// against the working directory `pwd`.
pub open spec fn roots_of(input_files: Seq<char>, pwd: Seq<char>) -> Seq<Seq<char>> {
    split(input_files, LIST_SEPARATOR).map_values(|piece: Seq<char>| normalized(piece, pwd))
}

impl Configuration {
    /// Whether nothing is configured.
    pub fn is_empty(&self) -> (empty: bool)
        ensures
            empty == (self@.input_files is None && self@.client_id is None
                && self@.client_secret is None && self@.drive_id is None),
    {
        self.input_files.is_none() && self.client_id.is_none() && self.client_secret.is_none()
            && self.drive_id.is_none()
    }

    /// The configuration with nothing configured.
    pub fn empty() -> (config: Configuration)
        ensures
            config@ == (Settings {
                client_id: None,
                client_secret: None,
                input_files: None,
                drive_id: None,
            }),
    {
        Configuration { client_id: None, client_secret: None, input_files: None, drive_id: None }
    }

    /// Whether the configuration names what a run needs: both credentials
    /// and the paths to sync. The shared drive may be missing. With it
    /// comes the text that says what is missing.
    pub fn is_complete(&self) -> (result: (bool, &'static str))
        ensures
            result.0 == (self@.client_id is Some && self@.client_secret is Some
                && self@.input_files is Some),
            result.1@ == missing_part(self@),
    {
        if self.client_id.is_none() {
            (false, "'client_id' is empty")
        } else if self.client_secret.is_none() {
            (false, "'client_secret' is empty")
        } else if self.input_files.is_none() {
            (false, "'input_files' is empty")
        } else {
            (true, "")
        }
    }

    /// The configuration that holds every part of `a` that is there, and
    /// the part of `b` where `a` has none.
    pub fn merge(a: Configuration, b: Configuration) -> (output: Configuration)
        ensures
            output.client_id == either(a.client_id, b.client_id),
            output.client_secret == either(a.client_secret, b.client_secret),
            output.input_files == either(a.input_files, b.input_files),
            output.drive_id == either(a.drive_id, b.drive_id),
    {
        let mut output = Configuration::empty();
        match a.client_id {
            Some(s) => output.client_id = Some(s),
            None => output.client_id = b.client_id,
        }
        match a.client_secret {
            Some(s) => output.client_secret = Some(s),
            None => output.client_secret = b.client_secret,
        }
        match a.input_files {
            Some(s) => output.input_files = Some(s),
            None => output.input_files = b.input_files,
        }
        match a.drive_id {
            Some(s) => output.drive_id = Some(s),
            None => output.drive_id = b.drive_id,
        }
        output
    }

    /// The local paths to sync, each made absolute against the working
    /// directory `pwd`.
    pub fn input_roots(&self, pwd: &str) -> (roots: Vec<String>)
        requires
            self@.input_files is Some,
        ensures
            texts(roots@) == roots_of(self@.input_files->Some_0, pwd@),
    {
        let input = match &self.input_files {
            Some(input) => input.as_str(),
            None => vstd::pervasive::unreached(),
        };
        let chars = characters(input);
        let pieces = split_ranges(&chars, LIST_SEPARATOR);
        let mut roots: Vec<String> = Vec::new();
        let mut index: usize = 0;
        let ghost all = split(input@, LIST_SEPARATOR);
        while index < pieces.len()
            invariant
                index <= pieces@.len(),
                chars@ == input@,
                all == split(input@, LIST_SEPARATOR),
                pieces@.len() == all.len(),
                forall|i: int|
                    #![trigger pieces@[i]]
                    0 <= i < pieces@.len() ==> {
                        &&& pieces@[i].0 <= pieces@[i].1 <= chars@.len()
                        &&& all[i] == chars@.subrange(pieces@[i].0 as int, pieces@[i].1 as int)
                    },
                roots@.len() == index,
                forall|i: int| 0 <= i < index ==> (#[trigger] roots@[i])@ == normalized(all[i], pwd@),
            decreases pieces@.len() - index,
        {
            let (from, to) = pieces[index];
            let piece = input.substring_char(from, to);
            roots.push(normalize_path(piece, pwd));
            index += 1;
        }
        assert(texts(roots@) =~= roots_of(input@, pwd@));
        roots
    }
}

/// The string of an optional text.
pub fn option_str_string(i: Option<&str>) -> (out: Option<String>)
    ensures
        match i {
            Some(text) => out is Some && out->Some_0@ == text@,
            None => out is None,
        },
{
    match i {
        Some(text) => Some(String::from_str(text)),
        None => None,
    }
}

/// The text to show for an optional value: the value, or `None` where
/// there is none.
pub fn option_unwrap_text(i: Option<String>) -> (out: String)
    ensures
        out@ == (match i {
            Some(text) => text@,
            None => "None"@,
        }),
{
    match i {
        Some(text) => text,
        None => String::from_str("None"),
    }
}

} // verus!
