//! The images of the previews: each file is decoded once, until it changes, and in the
//! background, so that a document with large images opens without freezing the window.

use crate::conflict::FileTime;
use std::collections::HashMap;
use vstd::prelude::*;

verus! {

/// The widest an image is decoded to, in pixels.
pub const IMAGE_DECODE_WIDTH: i32 = 2000;

/// The width an image is decoded to, if it is too wide to be decoded as it is.
pub fn decode_width(width: i32) -> (scaled: Option<i32>)
    ensures
        scaled == (if width > IMAGE_DECODE_WIDTH {
            Some(IMAGE_DECODE_WIDTH)
        } else {
            None
        }),
{
    if width > IMAGE_DECODE_WIDTH {
        Some(IMAGE_DECODE_WIDTH)
    } else {
        None
    }
}

/// An image that is kept, as contracts speak of it.
#[verifier::ext_equal]
pub struct CachedView {
    /// When the file last changed.
    pub mtime: FileTime,
    /// The size it is shown at, once it is decoded.
    pub size: Option<(i32, i32)>,
    /// Decoding is over.
    pub decoded: bool,
    /// The pictures that wait for it.
    pub waiting: Seq<u64>,
}

/// An image that is kept.
struct Cached {
    mtime: FileTime,
    size: Option<(i32, i32)>,
    decoded: bool,
    waiting: Vec<u64>,
}

impl View for Cached {
    type V = CachedView;

    closed spec fn view(&self) -> CachedView {
        CachedView {
            mtime: self.mtime,
            size: self.size,
            decoded: self.decoded,
            waiting: self.waiting@,
        }
    }
}

/// The images that are kept, by the numbers of their files.
pub struct Pictures {
    images: HashMap<u64, Cached>,
}

impl View for Pictures {
    type V = Map<u64, CachedView>;

    closed spec fn view(&self) -> Map<u64, CachedView> {
        self.images@.map_values(|image: Cached| image@)
    }
}

/// What a picture of an image shows.
#[derive(Clone, Copy, Debug, PartialEq, Eq, Structural)]
pub enum Shown {
    /// The image, at its size.
    Image(i32, i32),
    /// Nothing yet: the picture waits for the image.
    Waiting,
    /// Nothing: the image cannot be decoded.
    Nothing,
}

/// An image that is being decoded.
pub open spec fn loading(mtime: FileTime) -> CachedView {
    CachedView { mtime, size: None, decoded: false, waiting: Seq::empty() }
}

/// Whether the file has to be decoded: it is not kept, or has changed.
pub open spec fn is_stale(images: Map<u64, CachedView>, file: u64, mtime: FileTime) -> bool {
    !images.dom().contains(file) || images[file].mtime != mtime
}

/// The image of a file as it is kept once a picture of it is asked for.
pub open spec fn entry_for(images: Map<u64, CachedView>, file: u64, mtime: FileTime) -> CachedView {
    if is_stale(images, file, mtime) {
        loading(mtime)
    } else {
        images[file]
    }
}

/// What a picture shows of an image as it is kept.
pub open spec fn shown(image: CachedView) -> Shown {
    match image.size {
        Some((width, height)) => Shown::Image(width, height),
        None => if image.decoded {
            Shown::Nothing
        } else {
            Shown::Waiting
        },
    }
}

impl Pictures {
    /// No images.
    pub fn new() -> (pictures: Self)
        ensures
            pictures@ == Map::<u64, CachedView>::empty(),
    {
        let pictures = Pictures { images: HashMap::new() };
        proof {
            assert(pictures@ =~= Map::<u64, CachedView>::empty());
        }
        pictures
    }

    /// Ask for a picture of a file that last changed at `mtime`: what it shows, and whether the
    /// file is to be decoded.
    pub fn request(&mut self, file: u64, mtime: FileTime, picture: u64) -> (answer: (Shown, bool))
        ensures
            answer.0 == shown(entry_for(old(self)@, file, mtime)),
            answer.1 == is_stale(old(self)@, file, mtime),
            final(self)@ == old(self)@.insert(
                file,
                ({
                    let image = entry_for(old(self)@, file, mtime);
                    if shown(image) == Shown::Waiting {
                        CachedView { waiting: image.waiting.push(picture), ..image }
                    } else {
                        image
                    }
                }),
            ),
    {
        broadcast use vstd::std_specs::hash::group_hash_axioms;

        let ghost before = self.images@;
        let kept = self.images.remove(&file);
        let ghost removed = kept;
        let (mut image, load) = match kept {
            Some(image) => if image.mtime == mtime {
                (image, false)
            } else {
                (Cached { mtime, size: None, decoded: false, waiting: Vec::new() }, true)
            },
            None => (Cached { mtime, size: None, decoded: false, waiting: Vec::new() }, true),
        };
        proof {
            assert(old(self)@ == before.map_values(|image: Cached| image@));
            assert(image@ =~= entry_for(old(self)@, file, mtime));
        }
        let answer = match image.size {
            Some((width, height)) => Shown::Image(width, height),
            None => if image.decoded {
                Shown::Nothing
            } else {
                Shown::Waiting
            },
        };
        if answer == Shown::Waiting {
            image.waiting.push(picture);
        }
        let ghost stored = image;
        let _ = self.images.insert(file, image);
        proof {
            assert(self.images@ =~= before.insert(file, stored));
            assert(self@ =~= old(self)@.insert(file, stored@));
        }
        (answer, load)
    }

    /// Take note that decoding a file that last changed at `mtime` is over, with the size of the
    /// image if it could be decoded, and say which pictures waited for it. One that was dropped,
    /// or that changed on disk since, is not taken note of.
    pub fn decoded(&mut self, file: u64, mtime: FileTime, size: Option<(i32, i32)>) -> (waiting:
        Vec<u64>)
        ensures
            is_stale(old(self)@, file, mtime) ==> final(self)@ == old(self)@ && waiting@.len()
                == 0,
            !is_stale(old(self)@, file, mtime) ==> {
                &&& waiting@ == old(self)@[file].waiting
                &&& final(self)@ == old(self)@.insert(
                    file,
                    (CachedView {
                        mtime,
                        size: if size is Some {
                            size
                        } else {
                            old(self)@[file].size
                        },
                        decoded: true,
                        waiting: Seq::empty(),
                    }),
                )
            },
    {
        broadcast use vstd::std_specs::hash::group_hash_axioms;

        let ghost before = self.images@;
        proof {
            assert(old(self)@ == before.map_values(|image: Cached| image@));
        }
        let kept = self.images.remove(&file);
        match kept {
            Some(image) => if image.mtime == mtime {
                let ghost was = image;
                let size = match size {
                    Some(size) => Some(size),
                    None => image.size,
                };
                let next = Cached { mtime, size, decoded: true, waiting: Vec::new() };
                let ghost stored = next;
                let _ = self.images.insert(file, next);
                proof {
                    assert(old(self)@[file] == was@);
                    assert(self.images@ =~= before.insert(file, stored));
                    assert(self@ =~= old(self)@.insert(file, stored@));
                }
                image.waiting
            } else {
                let ghost was = image;
                let _ = self.images.insert(file, image);
                proof {
                    assert(old(self)@[file] == was@);
                    assert(self.images@ =~= before);
                }
                Vec::new()
            },
            None => {
                proof {
                    assert(self.images@ =~= before);
                }
                Vec::new()
            },
        }
    }

    /// Keep only the images of `files`, those of the document.
    pub fn keep(&mut self, files: &Vec<u64>)
        ensures
            final(self)@ == old(self)@.restrict(files@.to_set()),
    {
        broadcast use vstd::std_specs::hash::group_hash_axioms;

        let ghost before = self.images@;
        let mut kept: HashMap<u64, Cached> = HashMap::new();
        proof {
            assert(kept@ =~= before.restrict(files@.take(0).to_set()));
            assert(self.images@ =~= before.remove_keys(files@.take(0).to_set()));
        }
        for i in 0..files.len()
            invariant
                kept@ == before.restrict(files@.take(i as int).to_set()),
                self.images@ == before.remove_keys(files@.take(i as int).to_set()),
        {
            broadcast use vstd::std_specs::hash::group_hash_axioms;

            let file = files[i];
            let ghost some = files@.take(i as int).to_set();
            let ghost more = files@.take(i + 1).to_set();
            proof {
                assert(files@.take(i + 1) =~= files@.take(i as int).push(file));
                assert forall|key: u64| more.contains(key) <==> some.contains(key) || key
                    == file by {
                    let part = files@.take(i as int);
                    if part.contains(key) {
                        let k = choose|k: int| 0 <= k < part.len() && part[k] == key;
                        assert(part.push(file)[k] == key);
                    }
                    if part.push(file).contains(key) {
                        let k = choose|k: int|
                            0 <= k < part.push(file).len() && part.push(file)[k] == key;
                        if k < part.len() {
                            assert(part[k] == key);
                        }
                    }
                    assert(part.push(file)[part.len() as int] == file);
                }
            }
            let ghost kept_before = kept@;
            match self.images.remove(&file) {
                Some(image) => {
                    let _ = kept.insert(file, image);
                    proof {
                        assert(kept@ =~= before.restrict(more));
                        assert(self.images@ =~= before.remove_keys(more));
                    }
                },
                None => {
                    proof {
                        assert(!before.dom().contains(file) || some.contains(file));
                        assert(kept@ =~= before.restrict(more));
                        assert(self.images@ =~= before.remove_keys(more));
                    }
                },
            }
        }
        self.images = kept;
        proof {
            assert(files@.take(files@.len() as int) =~= files@);
            assert(self@ =~= old(self)@.restrict(files@.to_set()));
        }
    }
}

/// A file is decoded once, until it changes: another picture of it does not have it decoded
/// again, and shows what the first one does once decoding is over.
pub proof fn images_are_decoded_once(
    images: Map<u64, CachedView>,
    file: u64,
    mtime: FileTime,
    picture: u64,
)
    ensures
        ({
            let image = entry_for(images, file, mtime);
            let after = images.insert(
                file,
                if shown(image) == Shown::Waiting {
                    CachedView { waiting: image.waiting.push(picture), ..image }
                } else {
                    image
                },
            );
            !is_stale(after, file, mtime) && shown(entry_for(after, file, mtime)) == shown(image)
        }),
{
}

}
