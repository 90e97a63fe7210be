//! The in-memory image store: a mapping from opaque identifiers to shared,
//! immutable image buffers with their metadata.  Identifiers are built as
//! `<stem>_<uuid>.<ext>` from the uploaded filename.  Readers hold the buffer
//! through a reference-counted handle, so removing an entry never invalidates
//! an outstanding reader.

use std::sync::Arc;
use vstd::prelude::*;

use crate::image::Img;

verus! {

/// Relies on Arc::clone: the new handle shares the same image buffer; no
/// bytes are copied.
#[verifier::external_body]
pub fn clone_image_handle(img: &Arc<Img>) -> (r: Arc<Img>)
    ensures
        *r == **img,
{
    Arc::clone(img)
}

/// Relies on uuid::Uuid::new_v4 and its hyphenated text form, which is
/// always 36 characters.  The value is random; nothing else is assumed.
#[verifier::external_body]
fn fresh_uuid_string() -> (r: String)
    ensures
        r@.len() == 36,
{
    uuid::Uuid::new_v4().to_string()
}

/// Relies on chrono::Utc::now for the wall-clock time in microseconds since
/// the Unix epoch.  Nothing is assumed of the value.
#[verifier::external_body]
fn current_time_micros() -> i64 {
    chrono::Utc::now().timestamp_micros()
}

/// An image identifier: an opaque string.
pub type ImageId = String;

/// Metadata of a stored image; times are microseconds since the Unix epoch.
#[derive(Debug)]
pub struct ImageStorageMeta {
    pub filename: String,
    pub upload_time: i64,
    pub last_touch_time: i64,
}

/// One stored image: the shared buffer and its metadata.
#[derive(Debug)]
pub struct ImageStorageElement {
    pub image: Arc<Img>,
    pub meta: ImageStorageMeta,
}

/// Errors of the image store.
#[derive(Debug, Clone, Copy, PartialEq, Eq, Structural)]
pub enum ImageStorageServiceError {
    FilenameStemMissing,
    FilenameExtensionMissing,
    ImageNotFound,
}

/// Index of the last `.` in the text, or `-1` when there is none.
pub open spec fn spec_last_dot(s: Seq<char>) -> int
    decreases s.len(),
{
    if s.len() == 0 {
        -1
    } else if s.last() == '.' {
        s.len() - 1
    } else {
        spec_last_dot(s.drop_last())
    }
}

/// The filename part before the last dot.
pub open spec fn spec_stem(s: Seq<char>) -> Seq<char> {
    s.take(spec_last_dot(s))
}

/// The filename part after the last dot.
pub open spec fn spec_ext(s: Seq<char>) -> Seq<char> {
    s.skip(spec_last_dot(s) + 1)
}

/// A filename yields an identifier when it is non-empty and has a dot that
/// neither starts it nor is its only content: stem and extension both exist.
pub open spec fn spec_filename_splits(s: Seq<char>) -> bool {
    s.len() > 0 && spec_last_dot(s) >= 1
}

/// The identifier is `<stem>_<u>.<ext>` for some 36-character text `u`.
pub open spec fn spec_id_of(filename: Seq<char>, id: Seq<char>) -> bool {
    exists|u: Seq<char>|
        u.len() == 36 && id == spec_stem(filename) + seq!['_'] + u + seq!['.'] + spec_ext(filename)
}

/// An identifier starts with the filename's stem and ends with its
/// extension, with the stem strictly at the front.
pub proof fn lemma_id_shape(filename: Seq<char>, id: Seq<char>)
    requires
        spec_filename_splits(filename),
        spec_id_of(filename, id),
    ensures
        id.len() == spec_stem(filename).len() + 38 + spec_ext(filename).len(),
        id.take(spec_stem(filename).len() as int) == spec_stem(filename),
        id.skip(id.len() - spec_ext(filename).len()) == spec_ext(filename),
{
    let stem = spec_stem(filename);
    let ext = spec_ext(filename);
    let u = choose|u: Seq<char>|
        u.len() == 36 && id == stem + seq!['_'] + u + seq!['.'] + ext;
    assert(id.take(stem.len() as int) =~= stem);
    assert(id.skip(id.len() - ext.len()) =~= ext);
}

/// Index of the last `.` in the text, if any.
pub fn find_last_dot(s: &str) -> (r: Option<usize>)
    ensures
        r matches Some(k) ==> k == spec_last_dot(s@) && k < s@.len(),
        r is None ==> spec_last_dot(s@) == -1,
{
    let n = s.unicode_len();
    let mut last_dot: usize = 0;
    let mut seen_dot: bool = false;
    let mut i: usize = 0;
    proof {
        assert(s@.take(0) =~= Seq::<char>::empty());
    }
    while i < n
        invariant
            i <= n,
            n == s@.len(),
            seen_dot ==> last_dot < i,
            spec_last_dot(s@.take(i as int)) == (if seen_dot {
                last_dot as int
            } else {
                -1
            }),
        decreases n - i,
    {
        proof {
            assert(s@.take(i + 1).drop_last() =~= s@.take(i as int));
            assert(s@.take(i + 1).last() == s@[i as int]);
        }
        if s.get_char(i) == '.' {
            last_dot = i;
            seen_dot = true;
        }
        i = i + 1;
    }
    proof {
        assert(s@.take(n as int) =~= s@);
    }
    if seen_dot {
        Some(last_dot)
    } else {
        None
    }
}

/// Make an identifier from an uploaded filename: the stem, an underscore, a
/// fresh UUID, a dot, and the extension.  A filename without a stem or
/// without an extension is rejected.
fn generate_id(filename: &str) -> (r: Result<ImageId, ImageStorageServiceError>)
    ensures
        r is Ok <==> spec_filename_splits(filename@),
        r matches Ok(id) ==> spec_id_of(filename@, id@),
        r matches Err(e) ==> e == (if filename@.len() == 0 {
            ImageStorageServiceError::FilenameStemMissing
        } else {
            ImageStorageServiceError::FilenameExtensionMissing
        }),
{
    let n = filename.unicode_len();
    if n == 0 {
        return Err(ImageStorageServiceError::FilenameStemMissing);
    }
    let mut last_dot: usize = 0;
    let mut seen_dot: bool = false;
    let mut i: usize = 0;
    proof {
        assert(filename@.take(0) =~= Seq::<char>::empty());
    }
    while i < n
        invariant
            i <= n,
            n == filename@.len(),
            seen_dot ==> last_dot < i,
            spec_last_dot(filename@.take(i as int)) == (if seen_dot {
                last_dot as int
            } else {
                -1
            }),
        decreases n - i,
    {
        proof {
            assert(filename@.take(i + 1).drop_last() =~= filename@.take(i as int));
            assert(filename@.take(i + 1).last() == filename@[i as int]);
        }
        if filename.get_char(i) == '.' {
            last_dot = i;
            seen_dot = true;
        }
        i = i + 1;
    }
    proof {
        assert(filename@.take(n as int) =~= filename@);
    }
    if !seen_dot || last_dot == 0 {
        return Err(ImageStorageServiceError::FilenameExtensionMissing);
    }
    let stem = filename.substring_char(0, last_dot);
    let ext = filename.substring_char(last_dot + 1, n);
    let uuid = fresh_uuid_string();
    let mut id = String::new();
    id.append(stem);
    id.append("_");
    id.append(uuid.as_str());
    id.append(".");
    id.append(ext);
    proof {
        reveal_strlit("_");
        reveal_strlit(".");
        assert("_"@ =~= seq!['_']);
        assert("."@ =~= seq!['.']);
        assert(id@ == spec_stem(filename@) + seq!['_'] + uuid@ + seq!['.'] + spec_ext(
            filename@,
        ));
    }
    Ok(id)
}

/// The in-memory image store.  Entries are keyed by identifier; identifiers
/// are unique and every stored buffer is well formed.
#[derive(Debug)]
pub struct ImageStorageService {
    entries: Vec<(ImageId, ImageStorageElement)>,
}

impl ImageStorageService {
    pub closed spec fn spec_entries(&self) -> Seq<(ImageId, ImageStorageElement)> {
        self.entries@
    }

    /// Identifiers are unique and every stored image is well formed.
    pub open spec fn wf(&self) -> bool {
        &&& forall|i: int, j: int|
            0 <= i < j < self.spec_entries().len() ==> (#[trigger] self.spec_entries()[i]).0@ != (
            #[trigger] self.spec_entries()[j]).0@
        &&& forall|i: int|
            0 <= i < self.spec_entries().len() ==> (#[trigger] self.spec_entries()[i]).1.image.wf()
    }

    /// The store binds this identifier.
    pub open spec fn spec_contains_id(&self, id: Seq<char>) -> bool {
        exists|i: int| 0 <= i < self.spec_entries().len() && (#[trigger] self.spec_entries()[i]).0@ == id
    }

    /// Index of the entry bound to this identifier.
    pub open spec fn spec_index_of(&self, id: Seq<char>) -> int {
        choose|i: int| 0 <= i < self.spec_entries().len() && (#[trigger] self.spec_entries()[i]).0@ == id
    }

    pub fn new() -> (s: ImageStorageService)
        ensures
            s.wf(),
            s.spec_entries().len() == 0,
    {
        ImageStorageService { entries: Vec::new() }
    }

    /// Number of stored images.
    pub fn len(&self) -> (n: usize)
        ensures
            n == self.spec_entries().len(),
    {
        self.entries.len()
    }

    /// Index of the entry with this identifier, if any.
    fn find_index(&self, id: &ImageId) -> (r: Option<usize>)
        ensures
            r matches Some(i) ==> i < self.spec_entries().len() && self.spec_entries()[
                i as int
            ].0@ == id@,
            r is None ==> !self.spec_contains_id(id@),
    {
        let n = self.entries.len();
        let mut i: usize = 0;
        while i < n
            invariant
                i <= n,
                n == self.spec_entries().len(),
                forall|j: int| 0 <= j < i ==> (#[trigger] self.spec_entries()[j]).0@ != id@,
            decreases n - i,
        {
            if self.entries[i].0 == *id {
                return Some(i);
            }
            i = i + 1;
        }
        None
    }

    /// The element bound to an identifier the store contains.
    pub open spec fn spec_get(&self, id: Seq<char>) -> ImageStorageElement {
        self.spec_entries()[self.spec_index_of(id)].1
    }

    /// In a well-formed store a contained identifier has exactly one index,
    /// and `spec_index_of` is it.
    pub proof fn lemma_index_unique(&self, id: Seq<char>)
        requires
            self.wf(),
            self.spec_contains_id(id),
        ensures
            0 <= self.spec_index_of(id) < self.spec_entries().len(),
            self.spec_entries()[self.spec_index_of(id)].0@ == id,
            forall|j: int|
                0 <= j < self.spec_entries().len() && (#[trigger] self.spec_entries()[j]).0@ == id
                    ==> j == self.spec_index_of(id),
    {
        let i = self.spec_index_of(id);
        assert(0 <= i < self.spec_entries().len() && self.spec_entries()[i].0@ == id);
    }

    /// Store a decoded image under a fresh identifier derived from the
    /// uploaded filename.  A filename without stem or extension is rejected
    /// and the store is unchanged.  Upload time and last-touch time are set
    /// to the same moment.
    pub fn insert_image(&mut self, filename: String, img: Img) -> (r: Result<
        ImageId,
        ImageStorageServiceError,
    >)
        requires
            old(self).wf(),
            img.wf(),
        ensures
            final(self).wf(),
            r is Ok <==> spec_filename_splits(filename@),
            r matches Err(e) ==> *final(self) == *old(self) && e == (if filename@.len() == 0 {
                ImageStorageServiceError::FilenameStemMissing
            } else {
                ImageStorageServiceError::FilenameExtensionMissing
            }),
            r matches Ok(id) ==> spec_id_of(filename@, id@) && final(self).spec_contains_id(id@),
            r matches Ok(id) ==> {
                let el = final(self).spec_get(id@);
                &&& *el.image == img
                &&& el.meta.filename@ == filename@
                &&& el.meta.upload_time == el.meta.last_touch_time
            },
            r matches Ok(id) ==> forall|o: Seq<char>|
                o != id@ ==> (final(self).spec_contains_id(o) <==> old(self).spec_contains_id(o)),
            r matches Ok(id) ==> forall|o: Seq<char>|
                o != id@ && old(self).spec_contains_id(o) ==> final(self).spec_get(o) == old(
                    self,
                ).spec_get(o),
    {
        let id = match generate_id(filename.as_str()) {
            Ok(id) => id,
            Err(e) => {
                return Err(e);
            },
        };
        let now = current_time_micros();
        let element = ImageStorageElement {
            image: Arc::new(img),
            meta: ImageStorageMeta { filename, upload_time: now, last_touch_time: now },
        };
        let ghost pre = *self;
        let idx = self.find_index(&id);
        let stored_id = id.clone();
        match idx {
            Some(i) => {
                self.entries.set(i, (stored_id, element));
                proof {
                    self.lemma_frame_after_update(pre, i as int, id@);
                }
            },
            None => {
                self.entries.push((stored_id, element));
                proof {
                    self.lemma_frame_after_push(pre, id@);
                }
            },
        }
        Ok(id)
    }

    /// After replacing the entry at `i`, whose identifier is unchanged, every
    /// other identifier is bound as before.
    proof fn lemma_frame_after_update(&self, pre: ImageStorageService, i: int, id: Seq<char>)
        requires
            pre.wf(),
            0 <= i < pre.spec_entries().len(),
            pre.spec_entries()[i].0@ == id,
            self.spec_entries() == pre.spec_entries().update(
                i,
                self.spec_entries()[i],
            ),
            self.spec_entries()[i].0@ == id,
            self.spec_entries()[i].1.image.wf(),
        ensures
            self.wf(),
            self.spec_contains_id(id),
            self.spec_get(id) == self.spec_entries()[i].1,
            forall|o: Seq<char>|
                o != id ==> (self.spec_contains_id(o) <==> pre.spec_contains_id(o)),
            forall|o: Seq<char>|
                o != id && pre.spec_contains_id(o) ==> self.spec_get(o) == pre.spec_get(o),
    {
        assert(self.spec_entries().len() == pre.spec_entries().len());
        assert forall|j: int| 0 <= j < self.spec_entries().len() && j != i implies
            #[trigger] self.spec_entries()[j] == pre.spec_entries()[j] by {}
        assert(self.wf());
        assert(self.spec_contains_id(id));
        self.lemma_index_unique(id);
        assert forall|o: Seq<char>| o != id implies (self.spec_contains_id(o)
            <==> pre.spec_contains_id(o)) by {
            if self.spec_contains_id(o) {
                let j = choose|j: int|
                    0 <= j < self.spec_entries().len() && (#[trigger] self.spec_entries()[j]).0@
                        == o;
                assert(pre.spec_entries()[j].0@ == o);
            }
            if pre.spec_contains_id(o) {
                let j = choose|j: int|
                    0 <= j < pre.spec_entries().len() && (#[trigger] pre.spec_entries()[j]).0@
                        == o;
                assert(self.spec_entries()[j].0@ == o);
            }
        }
        assert forall|o: Seq<char>| o != id && pre.spec_contains_id(o) implies self.spec_get(o)
            == pre.spec_get(o) by {
            pre.lemma_index_unique(o);
            self.lemma_index_unique(o);
            let jp = pre.spec_index_of(o);
            let js = self.spec_index_of(o);
            assert(self.spec_entries()[jp].0@ == o);
            assert(js == jp);
        }
    }

    /// After pushing an entry with a new identifier, every other identifier
    /// is bound as before.
    proof fn lemma_frame_after_push(&self, pre: ImageStorageService, id: Seq<char>)
        requires
            pre.wf(),
            !pre.spec_contains_id(id),
            self.spec_entries() == pre.spec_entries().push(
                self.spec_entries().last(),
            ),
            self.spec_entries().last().0@ == id,
            self.spec_entries().last().1.image.wf(),
        ensures
            self.wf(),
            self.spec_contains_id(id),
            self.spec_get(id) == self.spec_entries().last().1,
            forall|o: Seq<char>|
                o != id ==> (self.spec_contains_id(o) <==> pre.spec_contains_id(o)),
            forall|o: Seq<char>|
                o != id && pre.spec_contains_id(o) ==> self.spec_get(o) == pre.spec_get(o),
    {
        let n = pre.spec_entries().len() as int;
        assert(self.spec_entries().len() == n + 1);
        assert forall|j: int| 0 <= j < n implies #[trigger] self.spec_entries()[j]
            == pre.spec_entries()[j] by {}
        assert forall|j: int| 0 <= j < n implies (#[trigger] self.spec_entries()[j]).0@ != id by {
            if self.spec_entries()[j].0@ == id {
                assert(pre.spec_contains_id(id));
            }
        }
        assert(self.wf());
        assert(self.spec_entries()[n].0@ == id);
        assert(self.spec_contains_id(id));
        self.lemma_index_unique(id);
        assert forall|o: Seq<char>| o != id implies (self.spec_contains_id(o)
            <==> pre.spec_contains_id(o)) by {
            if self.spec_contains_id(o) {
                let j = choose|j: int|
                    0 <= j < self.spec_entries().len() && (#[trigger] self.spec_entries()[j]).0@
                        == o;
                assert(j < n);
                assert(pre.spec_entries()[j].0@ == o);
            }
            if pre.spec_contains_id(o) {
                let j = choose|j: int|
                    0 <= j < pre.spec_entries().len() && (#[trigger] pre.spec_entries()[j]).0@
                        == o;
                assert(self.spec_entries()[j].0@ == o);
            }
        }
        assert forall|o: Seq<char>| o != id && pre.spec_contains_id(o) implies self.spec_get(o)
            == pre.spec_get(o) by {
            pre.lemma_index_unique(o);
            self.lemma_index_unique(o);
            let jp = pre.spec_index_of(o);
            assert(self.spec_entries()[jp].0@ == o);
        }
    }

    /// Borrow the stored element for an identifier.
    pub fn access_image(&self, id: &ImageId) -> (r: Result<
        &ImageStorageElement,
        ImageStorageServiceError,
    >)
        requires
            self.wf(),
        ensures
            r is Ok <==> self.spec_contains_id(id@),
            r matches Ok(el) ==> *el == self.spec_get(id@),
            r matches Err(e) ==> e == ImageStorageServiceError::ImageNotFound,
    {
        match self.find_index(id) {
            Some(i) => {
                proof {
                    self.lemma_index_unique(id@);
                }
                Ok(&self.entries[i].1)
            },
            None => Err(ImageStorageServiceError::ImageNotFound),
        }
    }

    /// The metadata for an identifier.
    pub fn get_image_meta(&self, id: &ImageId) -> (r: Result<
        ImageStorageMeta,
        ImageStorageServiceError,
    >)
        requires
            self.wf(),
        ensures
            r is Ok <==> self.spec_contains_id(id@),
            r matches Ok(m) ==> m == self.spec_get(id@).meta,
            r matches Err(e) ==> e == ImageStorageServiceError::ImageNotFound,
    {
        match self.find_index(id) {
            Some(i) => {
                proof {
                    self.lemma_index_unique(id@);
                }
                let m = &self.entries[i].1.meta;
                Ok(
                    ImageStorageMeta {
                        filename: m.filename.clone(),
                        upload_time: m.upload_time,
                        last_touch_time: m.last_touch_time,
                    },
                )
            },
            None => Err(ImageStorageServiceError::ImageNotFound),
        }
    }

    /// Remove the entry for an identifier.  Afterwards the identifier is no
    /// longer bound; every other identifier is bound as before.
    pub fn remove_image(&mut self, id: &ImageId) -> (r: Result<(), ImageStorageServiceError>)
        requires
            old(self).wf(),
        ensures
            final(self).wf(),
            r is Ok <==> old(self).spec_contains_id(id@),
            r matches Err(e) ==> e == ImageStorageServiceError::ImageNotFound && *final(self)
                == *old(self),
            !final(self).spec_contains_id(id@),
            forall|o: Seq<char>|
                o != id@ ==> (final(self).spec_contains_id(o) <==> old(self).spec_contains_id(o)),
            forall|o: Seq<char>|
                o != id@ && old(self).spec_contains_id(o) ==> final(self).spec_get(o) == old(
                    self,
                ).spec_get(o),
    {
        let ghost pre = *self;
        match self.find_index(id) {
            Some(i) => {
                proof {
                    pre.lemma_index_unique(id@);
                }
                self.entries.remove(i);
                proof {
                    self.lemma_frame_after_remove(pre, i as int, id@);
                }
                Ok(())
            },
            None => {
                assert(!self.spec_contains_id(id@));
                Err(ImageStorageServiceError::ImageNotFound)
            },
        }
    }

    /// After removing the entry at `i`, its identifier is gone and every
    /// other identifier is bound as before.
    proof fn lemma_frame_after_remove(&self, pre: ImageStorageService, i: int, id: Seq<char>)
        requires
            pre.wf(),
            0 <= i < pre.spec_entries().len(),
            pre.spec_entries()[i].0@ == id,
            self.spec_entries() == pre.spec_entries().remove(i),
        ensures
            self.wf(),
            !self.spec_contains_id(id),
            forall|o: Seq<char>|
                o != id ==> (self.spec_contains_id(o) <==> pre.spec_contains_id(o)),
            forall|o: Seq<char>|
                o != id && pre.spec_contains_id(o) ==> self.spec_get(o) == pre.spec_get(o),
    {
        let n = pre.spec_entries().len() as int;
        assert(self.spec_entries().len() == n - 1);
        assert forall|j: int| 0 <= j < n - 1 implies #[trigger] self.spec_entries()[j] == (if j < i {
            pre.spec_entries()[j]
        } else {
            pre.spec_entries()[j + 1]
        }) by {}
        assert(self.wf());
        pre.lemma_index_unique(id);
        assert forall|j: int| 0 <= j < n - 1 implies (#[trigger] self.spec_entries()[j]).0@
            != id by {
            if j < i {
                assert(pre.spec_entries()[j].0@ != id);
            } else {
                assert(pre.spec_entries()[j + 1].0@ != id);
            }
        }
        assert(!self.spec_contains_id(id));
        assert forall|o: Seq<char>| o != id implies (self.spec_contains_id(o)
            <==> pre.spec_contains_id(o)) by {
            if self.spec_contains_id(o) {
                let j = choose|j: int|
                    0 <= j < self.spec_entries().len() && (#[trigger] self.spec_entries()[j]).0@
                        == o;
                if j < i {
                    assert(pre.spec_entries()[j].0@ == o);
                } else {
                    assert(pre.spec_entries()[j + 1].0@ == o);
                }
            }
            if pre.spec_contains_id(o) {
                let j = choose|j: int|
                    0 <= j < pre.spec_entries().len() && (#[trigger] pre.spec_entries()[j]).0@
                        == o;
                assert(j != i);
                if j < i {
                    assert(self.spec_entries()[j].0@ == o);
                } else {
                    assert(self.spec_entries()[j - 1].0@ == o);
                }
            }
        }
        assert forall|o: Seq<char>| o != id && pre.spec_contains_id(o) implies self.spec_get(o)
            == pre.spec_get(o) by {
            pre.lemma_index_unique(o);
            self.lemma_index_unique(o);
            let jp = pre.spec_index_of(o);
            assert(jp != i);
            if jp < i {
                assert(self.spec_entries()[jp].0@ == o);
            } else {
                assert(self.spec_entries()[jp - 1].0@ == o);
            }
        }
    }
}

/// Once an identifier is removed, the store no longer binds it: any lookup
/// or second removal on the resulting store fails with `ImageNotFound`.
pub proof fn lemma_removed_id_stays_unbound(
    pre: ImageStorageService,
    post: ImageStorageService,
    id: Seq<char>,
)
    requires
        forall|o: Seq<char>| #[trigger]
            post.spec_contains_id(o) <==> (pre.spec_contains_id(o) && o != id),
    ensures
        !post.spec_contains_id(id),
{
    assert(!(pre.spec_contains_id(id) && id != id));
}

} // verus!
