//! Entries of the remote store.

use vstd::prelude::*;
use crate::api::optional_text;
use crate::text::texts;

verus! {

/// A file or folder as the remote store lists it.
#[derive(Debug, Clone, PartialEq, Eq)]
pub struct File {
    pub id: String,
    pub name: String,
    pub modified_time: String,
}

/// The mathematical value of a [`File`].
pub struct FileView {
    pub id: Seq<char>,
    pub name: Seq<char>,
    pub modified_time: Seq<char>,
}

impl View for File {
    type V = FileView;

    open spec fn view(&self) -> FileView {
        FileView { id: self.id@, name: self.name@, modified_time: self.modified_time@ }
    }
}

/// The media type that `mime_guess` finds for the extension of `path`;
/// none where the path has no extension or none that it knows.
pub uninterp spec fn guessed_type(path: Seq<char>) -> Option<Seq<char>>;

/// Calls `mime_guess::from_path`, takes the first guess and writes its
/// essence as text. No disk is read: the guess goes by the extension of
/// the path alone, which the contract says by naming the result.
#[verifier::external_body]
fn guess(path: &str) -> (found: Option<String>)
    ensures
        optional_text(found) == guessed_type(path@),
{
    match mime_guess::from_path(path).first() {
        Some(mime) => Some(mime.essence_str().to_string()),
        None => None,
    }
}

/// The media type that goes with a guess: the guess, or that of arbitrary
/// bytes where there is none.
pub open spec fn media_type_of(guess: Option<Seq<char>>) -> Seq<char> {
    match guess {
        Some(found) => found,
        None => "application/octet-stream"@,
    }
}

/// The media type that goes with a guess.
pub fn media_type(guess: Option<String>) -> (mime: String)
    ensures
        mime@ == media_type_of(optional_text(guess)),
{
    match guess {
        Some(found) => found,
        None => String::from_str("application/octet-stream"),
    }
}

/// The media type under which the file at `path` is sent.
pub fn mime_type(path: &str) -> (mime: String)
    ensures
        mime@ == media_type_of(guessed_type(path@)),
{
    media_type(guess(path))
}

/// Where files are listed: in the shared drive where one is used, else
/// among the files of the user.
pub fn corpora(drive_id: Option<&str>) -> (scope: &'static str)
    ensures
        scope@ == (if drive_id is Some {
            "drive"@
        } else {
            "user"@
        }),
{
    if drive_id.is_some() {
        "drive"
    } else {
        "user"
    }
}

/// The search for the folders named `name` below the folder `parent`.
pub open spec fn folder_search(name: Seq<char>, parent: Seq<char>) -> Seq<char> {
    "name = '"@ + name + "' and mimeType = 'application/vnd.google-apps.folder' and '"@ + parent
        + "' in parents"@
}

/// The search for the folders named `name` below the folder `parent`.
pub fn folder_query(name: &str, parent: &str) -> (query: String)
    ensures
        query@ == folder_search(name@, parent@),
{
    let mut query = String::from_str("name = '");
    query.append(name);
    query.append("' and mimeType = 'application/vnd.google-apps.folder' and '");
    query.append(parent);
    query.append("' in parents");
    query
}

/// Identifiers that the remote store has handed out for entities yet to
/// be created.
#[derive(Debug)]
pub struct IdPool {
    ids: Vec<String>,
}

impl View for IdPool {
    type V = Seq<Seq<char>>;

    closed spec fn view(&self) -> Seq<Seq<char>> {
        texts(self.ids@)
    }
}

impl IdPool {
    /// A pool without identifiers.
    pub fn new() -> (pool: IdPool)
        ensures
            pool@ == Seq::<Seq<char>>::empty(),
    {
        let pool = IdPool { ids: Vec::new() };
        assert(pool@ =~= Seq::<Seq<char>>::empty());
        pool
    }

    /// Whether the pool has run out.
    pub fn is_empty(&self) -> (empty: bool)
        ensures
            empty == (self@.len() == 0),
    {
        self.ids.len() == 0
    }

    /// Puts the identifiers `ids` in the place of those that the pool
    /// holds.
    pub fn replenish(&mut self, ids: Vec<String>)
        ensures
            final(self)@ == texts(ids@),
    {
        self.ids = ids;
    }
}

/// Takes the last identifier out of the pool; none where the pool has run
/// out and is to be replenished first.
pub fn get_id(pool: &mut IdPool) -> (id: Option<String>)
    ensures
        match id {
            Some(id) => old(pool)@.len() > 0 && id@ == old(pool)@.last() && final(pool)@ == old(
                pool,
            )@.drop_last(),
            None => old(pool)@.len() == 0 && final(pool)@ == old(pool)@,
        },
{
    let id = pool.ids.pop();
    assert(pool@ =~= if id is Some {
        old(pool)@.drop_last()
    } else {
        old(pool)@
    });
    id
}

} // verus!
