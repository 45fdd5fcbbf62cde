//! The decision core of the monitor loop.
//!
//! Once per cycle the surrounding task reads the clipboard and hands the
//! outcome to [`MonitorState::poll`], which applies the capture policy:
//! text takes precedence over an image, a value equal to the last one seen
//! is suppressed, and every new text capture is reported back so the caller
//! can notify its sink.  The state is transient: a fresh state means the
//! value already on the clipboard is captured once on the first poll.

use vstd::prelude::*;

use crate::entry::{
    clone_image, entry_for, image_eq, EntryModel, History, ImageEntry, ImageHistory, ImageModel,
};

verus! {

/// The most recently captured value of each content kind; in memory only,
/// used solely for duplicate suppression.
pub struct MonitorState {
    pub last_text: Option<String>,
    pub last_image: Option<ImageEntry>,
}

/// Mathematical model of a [`MonitorState`].
pub struct LastSeenModel {
    pub text: Option<Seq<char>>,
    pub image: Option<ImageModel>,
}

impl View for MonitorState {
    type V = LastSeenModel;

    open spec fn view(&self) -> LastSeenModel {
        LastSeenModel {
            text: match self.last_text {
                Some(ref s) => Some(s@),
                None => None,
            },
            image: match self.last_image {
                Some(ref e) => Some(e@),
                None => None,
            },
        }
    }
}

/// One capture step of the text path: a value equal to the last one seen
/// changes nothing; any other value becomes the last seen and is appended
/// to the history.
pub open spec fn text_step(
    last: Option<Seq<char>>,
    h: Seq<EntryModel>,
    t: Seq<char>,
) -> (Option<Seq<char>>, Seq<EntryModel>) {
    if last == Some(t) {
        (last, h)
    } else {
        (Some(t), h.push(entry_for(t)))
    }
}

/// One capture step of the image path, with the same skip-if-equal policy.
pub open spec fn image_step(
    last: Option<ImageModel>,
    h: Seq<ImageModel>,
    img: ImageModel,
) -> (Option<ImageModel>, Seq<ImageModel>) {
    if last == Some(img) {
        (last, h)
    } else {
        (Some(img), h.push(img))
    }
}

impl MonitorState {
    /// The state of a freshly started monitor: nothing seen yet.
    pub fn new() -> (s: MonitorState)
        ensures
            s@.text is None,
            s@.image is None,
    {
        MonitorState { last_text: None, last_image: None }
    }

    /// One cycle of the monitor loop, fed what the clipboard held.
    ///
    /// When the clipboard holds text, the image is ignored for this cycle
    /// and the text path runs; otherwise the image path runs.  The returned
    /// value is the notification to push: the raw text, exactly when a new
    /// text entry was recorded.
    pub fn poll(
        &mut self,
        text: Option<String>,
        image: Option<ImageEntry>,
        texts: &mut History,
        images: &mut ImageHistory,
    ) -> (notify: Option<String>)
        ensures
            (match text {
                Some(t) => {
                    &&& (final(self)@.text, final(texts)@) == text_step(
                        old(self)@.text,
                        old(texts)@,
                        t@,
                    )
                    &&& final(self)@.image == old(self)@.image
                    &&& final(images)@ == old(images)@
                    &&& (match notify {
                        Some(m) => old(self)@.text != Some(t@) && m@ == t@,
                        None => old(self)@.text == Some(t@),
                    })
                },
                None => {
                    &&& notify is None
                    &&& final(self)@.text == old(self)@.text
                    &&& final(texts)@ == old(texts)@
                    &&& (match image {
                        Some(img) => (final(self)@.image, final(images)@) == image_step(
                            old(self)@.image,
                            old(images)@,
                            img@,
                        ),
                        None => final(self)@.image == old(self)@.image && final(images)@ == old(
                            images,
                        )@,
                    })
                },
            }),
    {
        match text {
            Some(t) => {
                let unchanged = match &self.last_text {
                    Some(prev) => prev.eq(&t),
                    None => false,
                };
                if unchanged {
                    None
                } else {
                    texts.append(t.clone());
                    self.last_text = Some(t.clone());
                    Some(t)
                }
            },
            None => {
                match image {
                    Some(img) => {
                        let unchanged = match &self.last_image {
                            Some(prev) => image_eq(prev, &img),
                            None => false,
                        };
                        if !unchanged {
                            images.append(clone_image(&img));
                            self.last_image = Some(img);
                        }
                        None
                    },
                    None => None,
                }
            },
        }
    }
}

/// The text path of a whole run of polls, oldest first: each poll feeds one
/// observed text value through [`text_step`].
pub open spec fn run_text_polls(
    last: Option<Seq<char>>,
    h: Seq<EntryModel>,
    polls: Seq<Seq<char>>,
) -> (Option<Seq<char>>, Seq<EntryModel>)
    decreases polls.len(),
{
    if polls.len() == 0 {
        (last, h)
    } else {
        let s = text_step(last, h, polls[0]);
        run_text_polls(s.0, s.1, polls.drop_first())
    }
}

/// Polls that all observe the value last seen record nothing.
pub proof fn lemma_polls_unchanged(last: Seq<char>, h: Seq<EntryModel>, polls: Seq<Seq<char>>)
    requires
        forall|i: int| 0 <= i < polls.len() ==> polls[i] == last,
    ensures
        run_text_polls(Some(last), h, polls) == (Some(last), h),
    decreases polls.len(),
{
    if polls.len() > 0 {
        assert(polls[0] == last);
        lemma_polls_unchanged(last, h, polls.drop_first());
    }
}

/// Deduplication: any number of consecutive polls that all observe the same
/// new text value record exactly one entry, not one per poll.
pub proof fn lemma_dedup(
    last: Option<Seq<char>>,
    h: Seq<EntryModel>,
    t: Seq<char>,
    polls: Seq<Seq<char>>,
)
    requires
        last != Some(t),
        polls.len() >= 1,
        forall|i: int| 0 <= i < polls.len() ==> polls[i] == t,
    ensures
        run_text_polls(last, h, polls) == (Some(t), h.push(entry_for(t))),
{
    assert(polls[0] == t);
    lemma_polls_unchanged(t, h.push(entry_for(t)), polls.drop_first());
}

} // verus!
