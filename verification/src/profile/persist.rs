//! Reading, changing and writing the profile store, and the locks around it.
use vstd::prelude::*;

use crate::bytes;
use crate::error;
use crate::error::Error;
use crate::path;
use crate::profile::store::{ProfileStore, ProfileView};
use crate::profile::validation;
use crate::profile::validation::{validate_store, MAX_PROFILE_STORE_BYTES};
use crate::text;

verus! {

// ---------------------------------------------------------------------------
// Files
// ---------------------------------------------------------------------------
/// Why the contents of a file are not read as text.
pub open spec fn text_error(label: Seq<char>, place: Seq<char>, contents: Seq<u8>) -> Option<
    Seq<char>,
> {
    if vstd::utf8::valid_utf8(contents) {
        None
    } else {
        Some(label + " at "@ + place + " is not valid UTF-8"@)
    }
}

/// The text of a file.
pub fn decode_contents(label: &str, place: &str, contents: Vec<u8>) -> (result: Result<
    String,
    Error,
>)
    ensures
        error::refused_as(result, text_error(label@, place@, contents@)),
        result matches Ok(s) ==> s@ == vstd::utf8::decode_utf8(contents@),
{
    match bytes::decode(contents) {
        Some(s) => Ok(s),
        None => Err(
            Error::new(
                label.to_owned().concat(" at ").concat(place).concat(" is not valid UTF-8"),
            ),
        ),
    }
}

/// Why `store` is refused while `doing`.
pub open spec fn refused_while(store: Seq<ProfileView>, doing: Seq<char>) -> Option<Seq<char>> {
    match validation::store_error(store) {
        None => None,
        Some(reason) => Some(error::within(doing, reason)),
    }
}

impl ProfileStore {
    fn accepted_while(&self, doing: &str) -> (result: Result<(), Error>)
        ensures
            error::refused_under(result, doing@, refused_while(self@, doing@)),
    {
        match validate_store(self) {
            Ok(_) => Ok(()),
            Err(error) => Err(error.context(doing)),
        }
    }

    /// The store that was read at `place`, if it is one.
    pub fn loaded(self, place: &str) -> (result: Result<Self, Error>)
        ensures
            error::refused_under(
                result,
                "invalid profile store at "@ + place@,
                refused_while(self@, "invalid profile store at "@ + place@),
            ),
            result matches Ok(store) ==> store@ == self@,
    {
        let doing: String = "invalid profile store at ".to_owned().concat(place);
        match self.accepted_while(doing.as_str()) {
            Ok(_) => Ok(self),
            Err(error) => Err(error),
        }
    }

    /// The store that a change starts from: the one that was `found`, else the
    /// `initial` one, else an empty one.
    pub fn starting_point(found: Option<Self>, initial: Option<&Self>) -> (result: Self)
        ensures
            result@ == (match (found, initial) {
                (Some(store), _) => store@,
                (None, Some(store)) => store@,
                (None, None) => seq![],
            }),
    {
        match found {
            Some(store) => store,
            None => match initial {
                Some(store) => store.clone(),
                None => ProfileStore::default(),
            },
        }
    }

    /// Whether a changed store may replace the one that was saved.
    pub fn accept_mutation(&self) -> (result: Result<(), Error>)
        ensures
            error::refused_under(
                result,
                "profile mutation produced an invalid store"@,
                refused_while(self@, "profile mutation produced an invalid store"@),
            ),
    {
        self.accepted_while("profile mutation produced an invalid store")
    }

    /// Whether the store may be written.
    pub fn accept_saving(&self) -> (result: Result<(), Error>)
        ensures
            error::refused_under(
                result,
                "refusing to save invalid profile store"@,
                refused_while(self@, "refusing to save invalid profile store"@),
            ),
    {
        self.accepted_while("refusing to save invalid profile store")
    }
}

/// Whether a store that takes `size` bytes may be written.
pub fn accept_saved_size(size: u64) -> (result: Result<(), Error>)
    ensures
        error::refused_as(
            result,
            if size > MAX_PROFILE_STORE_BYTES {
                Some(
                    "refusing to save profile store larger than "@ + text::int_text(
                        MAX_PROFILE_STORE_BYTES as int,
                    ) + " bytes"@,
                )
            } else {
                None
            },
        ),
{
    if size > MAX_PROFILE_STORE_BYTES {
        Err(
            Error::new(
                "refusing to save profile store larger than ".to_owned().concat(
                    text::decimal(MAX_PROFILE_STORE_BYTES as i128).as_str(),
                ).concat(" bytes"),
            ),
        )
    } else {
        Ok(())
    }
}

// ---------------------------------------------------------------------------
// The lock of an application
// ---------------------------------------------------------------------------
/// Why no lock is taken.
pub open spec fn lock_error(runtime_dir: Option<Seq<char>>) -> Option<Seq<char>> {
    match runtime_dir {
        None => Some("XDG_RUNTIME_DIR is not set; cannot create apply lock"@),
        Some(dir) => if dir.len() == 0 {
            Some("XDG_RUNTIME_DIR is empty; cannot create apply lock"@)
        } else {
            None
        },
    }
}

/// The directory for files that live as long as the session, if it is known.
pub fn lock_runtime_dir(runtime_dir: Option<String>) -> (result: Result<String, Error>)
    ensures
        error::refused_as(
            result,
            lock_error(
                match runtime_dir {
                    Some(dir) => Some(dir@),
                    None => None,
                },
            ),
        ),
        result matches Ok(dir) ==> runtime_dir matches Some(given) && dir@ == given@,
{
    match runtime_dir {
        None => Err(
            Error::new("XDG_RUNTIME_DIR is not set; cannot create apply lock".to_owned()),
        ),
        Some(dir) => if dir.as_str().unicode_len() == 0 {
            Err(Error::new("XDG_RUNTIME_DIR is empty; cannot create apply lock".to_owned()))
        } else {
            Ok(dir)
        },
    }
}

/// The directory of the lock.
pub fn lock_dir(runtime_dir: &str) -> (result: String)
    ensures
        result@ == path::below(runtime_dir@, "hyprdisjust"@),
{
    path::join(runtime_dir, "hyprdisjust")
}

/// What came of making the directory of the lock.
#[derive(Debug)]
pub enum LockDirAttempt {
    Made,
    /// Nothing may be written there.
    Unavailable,
    Refused(Error),
}

/// Where the lock is.
#[derive(Debug, PartialEq, Eq)]
pub enum LockPlace {
    /// In the directory that was made.
    Ready { file: String },
    /// In another directory, to be made first.
    Fallback { directory: String, file: String },
}

/// What a [`LockPlace`] holds.
#[verifier::ext_equal]
pub enum LockPlaceView {
    Ready { file: Seq<char> },
    Fallback { directory: Seq<char>, file: Seq<char> },
}

impl View for LockPlace {
    type V = LockPlaceView;

    open spec fn view(&self) -> LockPlaceView {
        match self {
            LockPlace::Ready { file } => LockPlaceView::Ready { file: file@ },
            LockPlace::Fallback { directory, file } => LockPlaceView::Fallback {
                directory: directory@,
                file: file@,
            },
        }
    }
}

/// Where the lock is, after an attempt to make its directory.
pub open spec fn lock_place(
    runtime_dir: Seq<char>,
    temp_dir: Seq<char>,
    user: int,
    attempt: LockDirAttempt,
) -> Result<LockPlaceView, Seq<char>> {
    match attempt {
        LockDirAttempt::Made => Ok(
            LockPlaceView::Ready {
                file: path::below(path::below(runtime_dir, "hyprdisjust"@), "apply.lock"@),
            },
        ),
        LockDirAttempt::Unavailable => {
            let directory = path::below(temp_dir, "hyprdisjust-"@ + text::int_text(user));
            Ok(
                LockPlaceView::Fallback {
                    directory,
                    file: path::below(directory, "apply.lock"@),
                },
            )
        },
        LockDirAttempt::Refused(error) => Err(error@),
    }
}

/// Where the lock is, after an attempt to make its directory. There is one lock
/// for all profile stores.
pub fn apply_lock_path_for_runtime_dir(
    _profile_store_path: &str,
    runtime_dir: &str,
    temp_dir: &str,
    user: u32,
    attempt: LockDirAttempt,
) -> (result: Result<LockPlace, Error>)
    ensures
        error::outcome(result) == lock_place(runtime_dir@, temp_dir@, user as int, attempt),
        result matches Err(error) ==> (attempt matches LockDirAttempt::Refused(given) && error.head()
            == given.head()),
{
    match attempt {
        LockDirAttempt::Made => Ok(
            LockPlace::Ready {
                file: path::join(lock_dir(runtime_dir).as_str(), "apply.lock"),
            },
        ),
        LockDirAttempt::Unavailable => {
            let directory: String = path::join(
                temp_dir,
                "hyprdisjust-".to_owned().concat(text::decimal(user as i128).as_str()).as_str(),
            );
            let file: String = path::join(directory.as_str(), "apply.lock");
            Ok(LockPlace::Fallback { directory, file })
        },
        LockDirAttempt::Refused(error) => Err(error),
    }
}

// ---------------------------------------------------------------------------
// Laws
// ---------------------------------------------------------------------------
/// What may replace the saved store may be written, and read back.
pub proof fn law_accepted_stores_load(store: Seq<ProfileView>, place: Seq<char>)
    requires
        refused_while(store, "profile mutation produced an invalid store"@) is None,
    ensures
        refused_while(store, "refusing to save invalid profile store"@) is None,
        refused_while(store, "invalid profile store at "@ + place) is None,
{
}

} // verus!
