//! The static resource resolver: mapping a decoded target and the
//! configured root directory to a filesystem path, and packaging the
//! outcome of reading that path. The read itself is the caller's:
//! the resolver never interprets `~` or absolute-path escapes, it only
//! joins bytes onto the fixed root.

use vstd::prelude::*;
use crate::bytes::{append_bytes, subrange_vec, slice_to_vec, SLASH};
use crate::content_type::{content_type_of, classify_content_type};

verus! {

/// The target `/` alone.
pub open spec fn root_target() -> Seq<u8> {
    seq![SLASH]
}

/// The default document name `index.html`.
pub open spec fn index_html() -> Seq<u8> {
    seq![105u8, 110, 100, 101, 120, 46, 104, 116, 109, 108]
}

/// The path a target resolves to beneath the root: `/` becomes
/// `{root}/index.html`; any other target is stripped of its leading
/// slash, if it has one, and joined onto the root with a slash.
pub open spec fn resolved_path(root: Seq<u8>, target: Seq<u8>) -> Seq<u8> {
    if target == root_target() {
        root + root_target() + index_html()
    } else if target.len() >= 1 && target[0] == SLASH {
        root + root_target() + target.skip(1)
    } else {
        root + root_target() + target
    }
}

/// Join a decoded target onto the root directory.
pub fn resolve_path(root: &[u8], target: &[u8]) -> (r: Vec<u8>)
    ensures
        r@ == resolved_path(root@, target@),
{
    let mut out: Vec<u8> = slice_to_vec(root);
    out.push(SLASH);
    if target.len() == 1 && target[0] == SLASH {
        proof {
            assert(target@ =~= root_target());
        }
        let idx: [u8; 10] = [105, 110, 100, 101, 120, 46, 104, 116, 109, 108];
        proof {
            assert(idx@ =~= index_html());
        }
        append_bytes(&mut out, idx.as_slice());
        proof {
            assert(out@ =~= root@ + root_target() + index_html());
        }
    } else {
        proof {
            if target@ == root_target() {
                assert(target@.len() == 1 && target@[0] == SLASH);
            }
        }
        if target.len() >= 1 && target[0] == SLASH {
            let stripped = subrange_vec(target, 1, target.len());
            append_bytes(&mut out, stripped.as_slice());
            proof {
                assert(stripped@ =~= target@.skip(1));
                assert(out@ =~= root@ + root_target() + target@.skip(1));
            }
        } else {
            append_bytes(&mut out, target);
            proof {
                assert(out@ =~= root@ + root_target() + target@);
            }
        }
    }
    out
}

/// What resolving a target yielded: the MIME type classified from the
/// resolved path, whether a regular file could be opened and fully read,
/// and, when it could, its bytes.
pub struct ResolvedResource {
    pub content_type: Vec<u8>,
    pub bytes: Vec<u8>,
    pub found: bool,
}

/// Mathematical value of a resolution outcome.
pub ghost struct ResolvedResourceView {
    pub content_type: Seq<u8>,
    pub bytes: Seq<u8>,
    pub found: bool,
}

impl View for ResolvedResource {
    type V = ResolvedResourceView;

    open spec fn view(&self) -> ResolvedResourceView {
        ResolvedResourceView {
            content_type: self.content_type@,
            bytes: self.bytes@,
            found: self.found,
        }
    }
}

/// The resolution outcome for a path whose read came back as `read`:
/// `None` stands for any failure to open or fully read a regular file,
/// and is collapsed into "not found".
pub open spec fn resource_of(path: Seq<u8>, read: Option<Seq<u8>>) -> ResolvedResourceView {
    ResolvedResourceView {
        content_type: content_type_of(path),
        bytes: match read {
            None => Seq::empty(),
            Some(b) => b,
        },
        found: read is Some,
    }
}

/// Package the outcome of reading a resolved path, classifying its MIME
/// type from the path itself so that even a failed read keeps the type
/// the request asked for.
pub fn resolve_resource(path: &[u8], read: Option<Vec<u8>>) -> (r: ResolvedResource)
    ensures
        r@ == resource_of(path@, match read {
            None => None,
            Some(b) => Some(b@),
        }),
{
    let content_type = classify_content_type(path);
    match read {
        None => ResolvedResource { content_type, bytes: Vec::new(), found: false },
        Some(b) => ResolvedResource { content_type, bytes: b, found: true },
    }
}

} // verus!
