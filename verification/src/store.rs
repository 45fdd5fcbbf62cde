//! A history store, modeled over the contents of its backing file.
//!
//! One store exists per content kind.  The store is the whole-file
//! read/replace persistence of the recorder: its value is the text of the
//! backing file, or nothing where the file is absent.  The surrounding
//! process reads the real file into this value before an operation and
//! writes it back afterwards; deleting the file is writing back absence.

use vstd::prelude::*;

use crate::codec::{parse_history, parse_image_history, render_history, render_image_history};
use crate::entry::{EntryModel, History, ImageHistory, ImageModel};
use crate::json::{parse_doc, parse_image_doc, render_doc, render_image_doc};
use crate::roundtrip::{lemma_image_round_trip, lemma_text_round_trip};

verus! {

/// What loading a text store with this file content yields: the entries of
/// a well-formed document; an absent or malformed file counts as empty.
pub open spec fn loaded_text(file: Option<Seq<char>>) -> Seq<EntryModel> {
    match file {
        None => Seq::empty(),
        Some(s) => match parse_doc(s) {
            Some(items) => items,
            None => Seq::empty(),
        },
    }
}

/// What loading an image store with this file content yields.
pub open spec fn loaded_images(file: Option<Seq<char>>) -> Seq<ImageModel> {
    match file {
        None => Seq::empty(),
        Some(s) => match parse_image_doc(s) {
            Some(items) => items,
            None => Seq::empty(),
        },
    }
}

/// What any store's file holds after a wipe, whatever it held before.
pub open spec fn wiped(file: Option<Seq<char>>) -> Option<Seq<char>> {
    None
}

/// The text history store: the contents of its backing file, or nothing
/// where the file is absent.
pub struct TextStore {
    pub file: Option<String>,
}

impl View for TextStore {
    type V = Option<Seq<char>>;

    open spec fn view(&self) -> Option<Seq<char>> {
        match self.file {
            None => None,
            Some(ref s) => Some(s@),
        }
    }
}

impl TextStore {
    /// A store whose backing file does not exist.
    pub fn missing() -> (s: TextStore)
        ensures
            s@ is None,
    {
        TextStore { file: None }
    }

    /// A store whose backing file holds this text.
    pub fn with_contents(contents: String) -> (s: TextStore)
        ensures
            s@ == Some(contents@),
    {
        TextStore { file: Some(contents) }
    }

    /// Loads the whole history: the entries of the document, or the empty
    /// history where the file is absent or malformed.
    pub fn load(&self) -> (h: History)
        ensures
            h@ == loaded_text(self@),
    {
        match &self.file {
            None => History::empty(),
            Some(s) => match parse_history(s.as_str()) {
                Some(h) => h,
                None => History::empty(),
            },
        }
    }

    /// Replaces the file with the canonical document of `h`.  Loading
    /// afterwards yields exactly `h` again.
    pub fn save(&mut self, h: &History)
        ensures
            final(self)@ == Some(render_doc(h@)),
            loaded_text(final(self)@) == h@,
    {
        let out = render_history(h);
        self.file = Some(out);
        proof {
            lemma_text_round_trip(h@);
        }
    }

    /// Deletes the backing file.  Absence of the file is not an error, so
    /// a second wipe changes nothing and succeeds too.
    pub fn wipe(&mut self)
        ensures
            final(self)@ == wiped(old(self)@),
            loaded_text(final(self)@) == Seq::<EntryModel>::empty(),
    {
        self.file = None;
    }
}

/// The image history store.
pub struct ImageStore {
    pub file: Option<String>,
}

impl View for ImageStore {
    type V = Option<Seq<char>>;

    open spec fn view(&self) -> Option<Seq<char>> {
        match self.file {
            None => None,
            Some(ref s) => Some(s@),
        }
    }
}

impl ImageStore {
    /// A store whose backing file does not exist.
    pub fn missing() -> (s: ImageStore)
        ensures
            s@ is None,
    {
        ImageStore { file: None }
    }

    /// A store whose backing file holds this text.
    pub fn with_contents(contents: String) -> (s: ImageStore)
        ensures
            s@ == Some(contents@),
    {
        ImageStore { file: Some(contents) }
    }

    /// Loads the whole image history, empty where absent or malformed.
    pub fn load(&self) -> (h: ImageHistory)
        ensures
            h@ == loaded_images(self@),
    {
        match &self.file {
            None => ImageHistory::empty(),
            Some(s) => match parse_image_history(s.as_str()) {
                Some(h) => h,
                None => ImageHistory::empty(),
            },
        }
    }

    /// Replaces the file with the canonical document of `h`.
    pub fn save(&mut self, h: &ImageHistory)
        ensures
            final(self)@ == Some(render_image_doc(h@)),
            loaded_images(final(self)@) == h@,
    {
        let out = render_image_history(h);
        self.file = Some(out);
        proof {
            lemma_image_round_trip(h@);
        }
    }

    /// Deletes the backing file; absence is not an error.
    pub fn wipe(&mut self)
        ensures
            final(self)@ == wiped(old(self)@),
            loaded_images(final(self)@) == Seq::<ImageModel>::empty(),
    {
        self.file = None;
    }
}

/// Wiping is destructive and idempotent: one wipe leaves any store's file
/// absent, which loads as the empty history, and a second wipe leaves it
/// exactly as the first did.
pub proof fn lemma_wipe_destructive_idempotent(file: Option<Seq<char>>)
    ensures
        loaded_text(wiped(file)) == Seq::<EntryModel>::empty(),
        loaded_images(wiped(file)) == Seq::<ImageModel>::empty(),
        wiped(wiped(file)) == wiped(file),
{
}

} // verus!
