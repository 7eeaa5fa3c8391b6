//! The content-type classifier: a fixed, exact, case-sensitive table from
//! the file extension of a path's last component to a MIME type, with
//! `text/html` as the explicit default for any other or absent extension.

use vstd::prelude::*;
use crate::bytes::{rlast, rfind_byte, subrange_vec, slice_to_vec, eq_bytes, SLASH, DOT};

verus! {

/// File kinds the classifier distinguishes.
#[derive(Clone, Copy, PartialEq, Eq, Structural, Debug)]
pub enum FileType {
    Html,
    Htm,
    Css,
    Js,
    Png,
    Jpg,
    Jpeg,
    Ico,
    Unknown,
}

/// The last path component: everything after the last slash, or the whole
/// path when it has no slash.
pub open spec fn file_name_of(p: Seq<u8>) -> Seq<u8> {
    match rlast(p, SLASH) {
        None => p,
        Some(i) => p.skip(i + 1),
    }
}

/// The extension of a path: everything after the last dot of its last
/// component, absent when the component has no dot or only a leading one.
pub open spec fn ext_of(p: Seq<u8>) -> Option<Seq<u8>> {
    let f = file_name_of(p);
    match rlast(f, DOT) {
        None => None,
        Some(i) => if i > 0 {
            Some(f.skip(i + 1))
        } else {
            None
        },
    }
}

/// Classify an extension by exact, case-sensitive comparison.
pub open spec fn file_type_of(e: Option<Seq<u8>>) -> FileType {
    match e {
        None => FileType::Unknown,
        Some(x) => if x == seq![104u8, 116, 109, 108] {
            FileType::Html
        } else if x == seq![104u8, 116, 109] {
            FileType::Htm
        } else if x == seq![99u8, 115, 115] {
            FileType::Css
        } else if x == seq![106u8, 115] {
            FileType::Js
        } else if x == seq![112u8, 110, 103] {
            FileType::Png
        } else if x == seq![106u8, 112, 103] {
            FileType::Jpg
        } else if x == seq![106u8, 112, 101, 103] {
            FileType::Jpeg
        } else if x == seq![105u8, 99, 111] {
            FileType::Ico
        } else {
            FileType::Unknown
        },
    }
}

/// MIME type served for each file kind; `text/html` for `Unknown`.
pub open spec fn mime_bytes(t: FileType) -> Seq<u8> {
    match t {
        FileType::Html => seq![116u8, 101, 120, 116, 47, 104, 116, 109, 108],
        FileType::Htm => seq![116u8, 101, 120, 116, 47, 104, 116, 109, 108],
        FileType::Css => seq![116u8, 101, 120, 116, 47, 99, 115, 115],
        FileType::Js => seq![116u8, 101, 120, 116, 47, 106, 97, 118, 97, 115, 99, 114, 105, 112, 116],
        FileType::Png => seq![105u8, 109, 97, 103, 101, 47, 112, 110, 103],
        FileType::Jpg => seq![105u8, 109, 97, 103, 101, 47, 106, 112, 101, 103],
        FileType::Jpeg => seq![105u8, 109, 97, 103, 101, 47, 106, 112, 101, 103],
        FileType::Ico => seq![105u8, 109, 97, 103, 101, 47, 120, 45, 105, 99, 111, 110],
        FileType::Unknown => seq![116u8, 101, 120, 116, 47, 104, 116, 109, 108],
    }
}

/// MIME type served for a path.
pub open spec fn content_type_of(p: Seq<u8>) -> Seq<u8> {
    mime_bytes(file_type_of(ext_of(p)))
}

/// Extension of a path, by scanning its last component from the right.
pub fn extension_of(path: &[u8]) -> (r: Option<Vec<u8>>)
    ensures
        match r {
            Some(e) => ext_of(path@) == Some(e@),
            None => ext_of(path@) is None,
        },
{
    let path_len = path.len();
    let start: usize = match rfind_byte(path, SLASH) {
        None => 0,
        Some(i) => i + 1,
    };
    let name = subrange_vec(path, start, path_len);
    proof {
        match rlast(path@, SLASH) {
            None => {
                assert(name@ =~= path@);
            },
            Some(i) => {
                assert(name@ =~= path@.skip(i + 1));
            },
        }
        assert(name@ == file_name_of(path@));
    }
    let name_len = name.len();
    match rfind_byte(name.as_slice(), DOT) {
        None => None,
        Some(i) => if i > 0 {
            let e = subrange_vec(name.as_slice(), i + 1, name_len);
            proof {
                assert(e@ =~= name@.skip(i + 1));
            }
            Some(e)
        } else {
            None
        },
    }
}

/// Classify a path's extension.
pub fn classify_file_type(path: &[u8]) -> (r: FileType)
    ensures
        r == file_type_of(ext_of(path@)),
{
    let html: [u8; 4] = [104, 116, 109, 108];
    let htm: [u8; 3] = [104, 116, 109];
    let css: [u8; 3] = [99, 115, 115];
    let js: [u8; 2] = [106, 115];
    let png: [u8; 3] = [112, 110, 103];
    let jpg: [u8; 3] = [106, 112, 103];
    let jpeg: [u8; 4] = [106, 112, 101, 103];
    let ico: [u8; 3] = [105, 99, 111];
    match extension_of(path) {
        None => FileType::Unknown,
        Some(e) => {
            let x = e.as_slice();
            if eq_bytes(x, html.as_slice()) {
                proof {
                    assert(x@ =~= seq![104u8, 116, 109, 108]);
                }
                FileType::Html
            } else if eq_bytes(x, htm.as_slice()) {
                proof {
                    assert(x@ =~= seq![104u8, 116, 109]);
                }
                FileType::Htm
            } else if eq_bytes(x, css.as_slice()) {
                proof {
                    assert(x@ =~= seq![99u8, 115, 115]);
                }
                FileType::Css
            } else if eq_bytes(x, js.as_slice()) {
                proof {
                    assert(x@ =~= seq![106u8, 115]);
                }
                FileType::Js
            } else if eq_bytes(x, png.as_slice()) {
                proof {
                    assert(x@ =~= seq![112u8, 110, 103]);
                }
                FileType::Png
            } else if eq_bytes(x, jpg.as_slice()) {
                proof {
                    assert(x@ =~= seq![106u8, 112, 103]);
                }
                FileType::Jpg
            } else if eq_bytes(x, jpeg.as_slice()) {
                proof {
                    assert(x@ =~= seq![106u8, 112, 101, 103]);
                }
                FileType::Jpeg
            } else if eq_bytes(x, ico.as_slice()) {
                proof {
                    assert(x@ =~= seq![105u8, 99, 111]);
                }
                FileType::Ico
            } else {
                proof {
                    assert(x@ != seq![104u8, 116, 109, 108] && x@ != seq![104u8, 116, 109]
                        && x@ != seq![99u8, 115, 115] && x@ != seq![106u8, 115]
                        && x@ != seq![112u8, 110, 103] && x@ != seq![106u8, 112, 103]
                        && x@ != seq![106u8, 112, 101, 103] && x@ != seq![105u8, 99, 111]) by {
                        assert(html@ =~= seq![104u8, 116, 109, 108]);
                        assert(htm@ =~= seq![104u8, 116, 109]);
                        assert(css@ =~= seq![99u8, 115, 115]);
                        assert(js@ =~= seq![106u8, 115]);
                        assert(png@ =~= seq![112u8, 110, 103]);
                        assert(jpg@ =~= seq![106u8, 112, 103]);
                        assert(jpeg@ =~= seq![106u8, 112, 101, 103]);
                        assert(ico@ =~= seq![105u8, 99, 111]);
                    }
                }
                FileType::Unknown
            }
        },
    }
}

/// MIME type of a file kind, as bytes for the `Content-Type` field.
pub fn mime_vec(t: FileType) -> (r: Vec<u8>)
    ensures
        r@ == mime_bytes(t),
{
    match t {
        FileType::Html | FileType::Htm | FileType::Unknown => {
            let a: [u8; 9] = [116, 101, 120, 116, 47, 104, 116, 109, 108];
            proof {
                assert(a@ =~= mime_bytes(t));
            }
            slice_to_vec(a.as_slice())
        },
        FileType::Css => {
            let a: [u8; 8] = [116, 101, 120, 116, 47, 99, 115, 115];
            proof {
                assert(a@ =~= mime_bytes(t));
            }
            slice_to_vec(a.as_slice())
        },
        FileType::Js => {
            let a: [u8; 15] = [116, 101, 120, 116, 47, 106, 97, 118, 97, 115, 99, 114, 105, 112, 116];
            proof {
                assert(a@ =~= mime_bytes(t));
            }
            slice_to_vec(a.as_slice())
        },
        FileType::Png => {
            let a: [u8; 9] = [105, 109, 97, 103, 101, 47, 112, 110, 103];
            proof {
                assert(a@ =~= mime_bytes(t));
            }
            slice_to_vec(a.as_slice())
        },
        FileType::Jpg | FileType::Jpeg => {
            let a: [u8; 10] = [105, 109, 97, 103, 101, 47, 106, 112, 101, 103];
            proof {
                assert(a@ =~= mime_bytes(t));
            }
            slice_to_vec(a.as_slice())
        },
        FileType::Ico => {
            let a: [u8; 12] = [105, 109, 97, 103, 101, 47, 120, 45, 105, 99, 111, 110];
            proof {
                assert(a@ =~= mime_bytes(t));
            }
            slice_to_vec(a.as_slice())
        },
    }
}

/// Classify a path and yield the MIME type to serve for it.
pub fn classify_content_type(path: &[u8]) -> (r: Vec<u8>)
    ensures
        r@ == content_type_of(path@),
{
    mime_vec(classify_file_type(path))
}

} // verus!
