//! Recorded clipboard captures and the in-memory history of one content kind.

use vstd::prelude::*;

verus! {

/// One recorded clipboard text capture: the captured text together with a
/// fixed human-readable label.  Immutable once created.
pub struct Entry {
    pub message: String,
    pub description: String,
}

/// Mathematical model of an [`Entry`]: both fields as character sequences.
pub struct EntryModel {
    pub message: Seq<char>,
    pub description: Seq<char>,
}

impl View for Entry {
    type V = EntryModel;

    open spec fn view(&self) -> EntryModel {
        EntryModel { message: self.message@, description: self.description@ }
    }
}

/// The fixed label every recorded text capture carries.
pub open spec fn label() -> Seq<char> {
    "Copied to clipboard"@
}

/// The model of the entry that recording the text `message` produces.
pub open spec fn entry_for(message: Seq<char>) -> EntryModel {
    EntryModel { message: message, description: label() }
}

/// One recorded clipboard image capture: dimensions in pixels and the raw
/// pixel bytes.
pub struct ImageEntry {
    pub width: u32,
    pub height: u32,
    pub bytes: Vec<u8>,
}

/// Mathematical model of an [`ImageEntry`].
pub struct ImageModel {
    pub width: u32,
    pub height: u32,
    pub bytes: Seq<u8>,
}

impl View for ImageEntry {
    type V = ImageModel;

    open spec fn view(&self) -> ImageModel {
        ImageModel { width: self.width, height: self.height, bytes: self.bytes@ }
    }
}

/// The ordered history of text captures of one store, oldest first.
pub struct History {
    pub items: Vec<Entry>,
}

/// The models of a sequence of entries, in order.
pub open spec fn entries_model(es: Seq<Entry>) -> Seq<EntryModel> {
    es.map_values(|e: Entry| e@)
}

/// The models of a sequence of image entries, in order.
pub open spec fn images_model(es: Seq<ImageEntry>) -> Seq<ImageModel> {
    es.map_values(|e: ImageEntry| e@)
}

impl View for History {
    type V = Seq<EntryModel>;

    open spec fn view(&self) -> Seq<EntryModel> {
        entries_model(self.items@)
    }
}

/// The ordered history of image captures of one store, oldest first.
pub struct ImageHistory {
    pub items: Vec<ImageEntry>,
}

impl View for ImageHistory {
    type V = Seq<ImageModel>;

    open spec fn view(&self) -> Seq<ImageModel> {
        images_model(self.items@)
    }
}

impl History {
    /// The empty history.
    pub fn empty() -> (h: History)
        ensures
            h@ == Seq::<EntryModel>::empty(),
    {
        let h = History { items: Vec::new() };
        proof {
            assert(h@ =~= Seq::<EntryModel>::empty());
        }
        h
    }

    /// Appends a capture of `message`, with the fixed label, at the end.
    pub fn append(&mut self, message: String)
        ensures
            final(self)@ == old(self)@.push(entry_for(message@)),
    {
        let ghost before = self@;
        let entry = Entry { message, description: copied_label() };
        let ghost m = entry@;
        self.items.push(entry);
        proof {
            assert(self@ =~= before.push(m));
        }
    }

    /// The `n` most recent entries, most recent first; the whole history,
    /// reversed, when it holds fewer than `n` entries.
    pub fn last_n(&self, n: usize) -> (r: Vec<Entry>)
        ensures
            r@.len() == if n <= self@.len() { n as int } else { self@.len() as int },
            forall|i: int| 0 <= i < r@.len() ==> r@[i]@ == self@[self@.len() - 1 - i],
    {
        let len = self.items.len();
        let take = if n <= len { n } else { len };
        let mut r: Vec<Entry> = Vec::new();
        let mut i: usize = 0;
        while i < take
            invariant
                take <= len,
                len == self@.len(),
                i <= take,
                r@.len() == i as int,
                forall|j: int| 0 <= j < i ==> r@[j]@ == self@[len - 1 - j],
            decreases take - i,
        {
            let e = &self.items[len - 1 - i];
            r.push(Entry { message: e.message.clone(), description: e.description.clone() });
            i = i + 1;
        }
        r
    }
}

impl ImageHistory {
    /// The empty image history.
    pub fn empty() -> (h: ImageHistory)
        ensures
            h@ == Seq::<ImageModel>::empty(),
    {
        let h = ImageHistory { items: Vec::new() };
        proof {
            assert(h@ =~= Seq::<ImageModel>::empty());
        }
        h
    }

    /// Appends the captured image at the end.
    pub fn append(&mut self, image: ImageEntry)
        ensures
            final(self)@ == old(self)@.push(image@),
    {
        let ghost before = self@;
        let ghost m = image@;
        self.items.push(image);
        proof {
            assert(self@ =~= before.push(m));
        }
    }

    /// The `n` most recent image entries, most recent first.
    pub fn last_n(&self, n: usize) -> (r: Vec<ImageEntry>)
        ensures
            r@.len() == if n <= self@.len() { n as int } else { self@.len() as int },
            forall|i: int| 0 <= i < r@.len() ==> r@[i]@ == self@[self@.len() - 1 - i],
    {
        let len = self.items.len();
        let take = if n <= len { n } else { len };
        let mut r: Vec<ImageEntry> = Vec::new();
        let mut i: usize = 0;
        while i < take
            invariant
                take <= len,
                len == self@.len(),
                i <= take,
                r@.len() == i as int,
                forall|j: int| 0 <= j < i ==> r@[j]@ == self@[len - 1 - j],
            decreases take - i,
        {
            let e = &self.items[len - 1 - i];
            r.push(clone_image(e));
            i = i + 1;
        }
        r
    }
}

/// An owned copy of an image entry.
pub fn clone_image(e: &ImageEntry) -> (r: ImageEntry)
    ensures
        r@ == e@,
{
    let mut bytes: Vec<u8> = Vec::new();
    let mut i: usize = 0;
    while i < e.bytes.len()
        invariant
            i <= e.bytes@.len(),
            bytes@ == e.bytes@.subrange(0, i as int),
        decreases e.bytes@.len() - i,
    {
        bytes.push(e.bytes[i]);
        i = i + 1;
        proof {
            assert(bytes@ =~= e.bytes@.subrange(0, i as int));
        }
    }
    proof {
        assert(bytes@ =~= e.bytes@);
    }
    ImageEntry { width: e.width, height: e.height, bytes }
}

/// The fixed label as an owned string.
pub fn copied_label() -> (s: String)
    ensures
        s@ == label(),
{
    "Copied to clipboard".to_owned()
}

/// Whether two byte vectors hold the same bytes.
pub fn bytes_eq(a: &Vec<u8>, b: &Vec<u8>) -> (r: bool)
    ensures
        r == (a@ == b@),
{
    if a.len() != b.len() {
        proof {
            assert(a@ != b@);
        }
        return false;
    }
    let mut i: usize = 0;
    while i < a.len()
        invariant
            a@.len() == b@.len(),
            i <= a@.len(),
            forall|j: int| 0 <= j < i ==> a@[j] == b@[j],
        decreases a@.len() - i,
    {
        if a[i] != b[i] {
            return false;
        }
        i = i + 1;
    }
    proof {
        assert(a@ =~= b@);
    }
    true
}

/// Whether two image entries hold the same image.
pub fn image_eq(a: &ImageEntry, b: &ImageEntry) -> (r: bool)
    ensures
        r == (a@ == b@),
{
    a.width == b.width && a.height == b.height && bytes_eq(&a.bytes, &b.bytes)
}

} // verus!
