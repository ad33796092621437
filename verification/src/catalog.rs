//! The document model of the remote catalog: image and display documents,
//! and the pure rules that turn them into playlist entries and status
//! updates.

use vstd::prelude::*;
use crate::messages::ImageInfo;
use crate::strutil::{sp_lower_code, ascii_lower, str_eq};

verus! {

/// An image document of the catalog.
#[derive(Debug, Clone)]
pub struct CouchImage {
    pub id: String,
    pub rev: Option<String>,
    pub doc_type: String,
    pub original_name: String,
    pub size: u64,
    pub metadata: ImageMetadata,
    pub assigned_tvs: Vec<String>,
    pub created_at: String,
    pub attachments: Option<Vec<(String, Attachment)>>,
}

/// Pixel dimensions and format of a catalog image.
#[derive(Debug, Clone)]
pub struct ImageMetadata {
    pub width: u32,
    pub height: u32,
    pub format: String,
}

/// One stored attachment of a catalog document.
#[derive(Debug, Clone)]
pub struct Attachment {
    pub content_type: String,
    pub length: u64,
    pub digest: Option<String>,
}

/// A display document of the catalog.
#[derive(Debug, Clone)]
pub struct CouchTv {
    pub id: String,
    pub rev: Option<String>,
    pub doc_type: String,
    pub name: String,
    pub location: String,
    pub ip_address: String,
    pub status: String,
    pub last_heartbeat: Option<String>,
    pub config: TvConfig,
    pub current_image: Option<String>,
}

/// The per-display configuration stored in the catalog.  The display
/// duration is in milliseconds.
#[derive(Debug, Clone)]
pub struct TvConfig {
    pub transition_effect: String,
    pub display_duration: u64,
    pub orientation: String,
}

/// The format assumed for an image document that does not name one.
pub fn default_format() -> (r: String)
    ensures
        r@ == "png"@,
{
    "png".to_owned()
}

/// The orientation assumed for a display document that does not name one.
pub fn default_orientation() -> (r: String)
    ensures
        r@ == "landscape"@,
{
    "landscape".to_owned()
}

/// The configuration a display falls back to when the catalog has none
/// for it.
pub fn default_tv_config() -> (r: TvConfig)
    ensures
        r.transition_effect@ == "fade"@,
        r.display_duration == 5000,
        r.orientation@ == "landscape"@,
{
    TvConfig {
        transition_effect: "fade".to_owned(),
        display_duration: 5000,
        orientation: "landscape".to_owned(),
    }
}

/// Whether an image document is assigned to the given display.
pub open spec fn sp_doc_matches(d: CouchImage, tv: Seq<char>) -> bool {
    d.doc_type@ == "image"@ && exists|i: int|
        0 <= i < d.assigned_tvs@.len() && #[trigger] d.assigned_tvs@[i]@ == tv
}

/// The subsequence of catalog documents assigned to the given display,
/// in catalog order.
pub open spec fn sp_matching(docs: Seq<CouchImage>, tv: Seq<char>) -> Seq<CouchImage>
    decreases docs.len(),
{
    if docs.len() == 0 {
        Seq::empty()
    } else {
        let rest = sp_matching(docs.drop_last(), tv);
        if sp_doc_matches(docs.last(), tv) {
            rest.push(docs.last())
        } else {
            rest
        }
    }
}

/// The file extension derived for an image document: a dot followed by
/// the ASCII-lowercased declared format; where no format is declared, a
/// dot and the characters after the last dot of the original name; and
/// `.png` where the original name has no extension either.
pub open spec fn sp_ext_ok(d: CouchImage, e: Seq<char>) -> bool {
    let fmt = d.metadata.format@;
    let name = d.original_name@;
    if fmt.len() > 0 {
        &&& e.len() == fmt.len() + 1
        &&& e[0] == '.'
        &&& forall|j: int| 0 <= j < fmt.len() ==> #[trigger] (e[j + 1] as u32) == sp_lower_code(
            fmt[j],
        )
    } else {
        match name.index_of_last('.') {
            Some(i) => e == seq!['.'] + name.subrange(i + 1, name.len() as int),
            None => e == ".png"@,
        }
    }
}

/// One playlist entry derived from a catalog document at position `k` of
/// the assignment.
pub open spec fn sp_entry_ok(d: CouchImage, k: int, r: ImageInfo) -> bool {
    &&& r.id@ == d.id@
    &&& r.order == k
    &&& r.url is None
    &&& (r.extension matches Some(e) && sp_ext_ok(d, e@))
    &&& (r.extension matches Some(e) && r.path@ == d.id@ + e@)
}

/// The extension for a catalog document, as [`sp_ext_ok`] describes.
fn extension_for(d: &CouchImage) -> (e: String)
    ensures
        sp_ext_ok(*d, e@),
{
    let mut e = String::new();
    e.push('.');
    if d.metadata.format.as_str().unicode_len() > 0 {
        let lower = ascii_lower(d.metadata.format.as_str());
        e.append(lower.as_str());
        proof {
            assert(e@.len() == d.metadata.format@.len() + 1);
            assert(e@[0] == '.');
            assert forall|j: int|
                0 <= j < d.metadata.format@.len() implies #[trigger] (e@[j + 1] as u32)
                == sp_lower_code(d.metadata.format@[j]) by {
                assert(e@[j + 1] == lower@[j]);
            }
        }
        e
    } else {
        let name = d.original_name.as_str();
        let n = name.unicode_len();
        match crate::strutil::find_last(name, '.') {
            Some(i) => {
                proof {
                    name@.index_of_last_ensures('.');
                }
                let suffix = name.substring_char(i + 1, n);
                e.append(suffix);
                proof {
                    assert(e@ =~= seq!['.'] + name@.subrange(i + 1, name@.len() as int));
                }
                e
            },
            None => {
                proof {
                    reveal_strlit(".png");
                    reveal_strlit("png");
                }
                let r = ".png".to_owned();
                proof {
                    assert(r@ =~= ".png"@);
                }
                r
            },
        }
    }
}

/// Turns the catalog documents assigned to a display into its playlist:
/// one entry per matching document, ordered as the catalog lists them,
/// with derived file extension and path and the position as order.
pub fn images_for_tv(docs: &Vec<CouchImage>, tv_id: &str) -> (r: Vec<ImageInfo>)
    requires
        docs@.len() < 0xffff_ffff,
    ensures
        r@.len() == sp_matching(docs@, tv_id@).len(),
        forall|k: int|
            0 <= k < r@.len() ==> sp_entry_ok(sp_matching(docs@, tv_id@)[k], k, #[trigger] r@[k]),
{
    let mut r: Vec<ImageInfo> = Vec::new();
    let mut i: usize = 0;
    proof {
        reveal_strlit("image");
    }
    while i < docs.len()
        invariant
            i <= docs@.len(),
            docs@.len() < 0xffff_ffff,
            r@.len() == sp_matching(docs@.take(i as int), tv_id@).len(),
            forall|k: int|
                0 <= k < r@.len() ==> sp_entry_ok(
                    sp_matching(docs@.take(i as int), tv_id@)[k],
                    k,
                    #[trigger] r@[k],
                ),
        decreases docs@.len() - i,
    {
        let d = &docs[i];
        let mut assigned = false;
        let mut j: usize = 0;
        while j < d.assigned_tvs.len()
            invariant
                j <= d.assigned_tvs@.len(),
                assigned == exists|t: int|
                    0 <= t < j && #[trigger] d.assigned_tvs@[t]@ == tv_id@,
            decreases d.assigned_tvs@.len() - j,
        {
            if str_eq(d.assigned_tvs[j].as_str(), tv_id) {
                assigned = true;
            }
            j = j + 1;
        }
        let matches_doc = assigned && str_eq(d.doc_type.as_str(), "image");
        proof {
            assert(matches_doc == sp_doc_matches(docs@[i as int], tv_id@));
            assert(docs@.take(i + 1).drop_last() =~= docs@.take(i as int));
            assert(docs@.take(i + 1).last() == docs@[i as int]);
        }
        if matches_doc {
            let e = extension_for(d);
            let mut path = d.id.clone();
            path.append(e.as_str());
            proof {
                lemma_matching_len(docs@.take(i as int), tv_id@);
                assert(r@.len() < 0xffff_ffff);
            }
            let order32: u32 = r.len() as u32;
            let entry = ImageInfo {
                id: d.id.clone(),
                path,
                order: order32,
                url: None,
                extension: Some(e),
            };
            r.push(entry);
        }
        i = i + 1;
    }
    proof {
        assert(docs@.take(docs@.len() as int) =~= docs@);
    }
    r
}

/// A matching subsequence is never longer than the catalog itself.
proof fn lemma_matching_len(docs: Seq<CouchImage>, tv: Seq<char>)
    ensures
        sp_matching(docs, tv).len() <= docs.len(),
    decreases docs.len(),
{
    if docs.len() > 0 {
        lemma_matching_len(docs.drop_last(), tv);
    }
}

/// The name of the first stored attachment of an image document, if any.
pub fn first_attachment_name(d: &CouchImage) -> (r: Option<String>)
    ensures
        match &d.attachments {
            Some(atts) => if atts@.len() > 0 {
                r matches Some(n) && n@ == atts@[0].0@
            } else {
                r is None
            },
            None => r is None,
        },
{
    match &d.attachments {
        Some(atts) => {
            if atts.len() > 0 {
                Some(atts[0].0.clone())
            } else {
                None
            }
        },
        None => None,
    }
}

/// The display document written back on a status update: the existing
/// document when there is one, otherwise a fresh one with defaults, with
/// status, heartbeat timestamp and current image brought up to date.
pub fn merged_tv_status_doc(
    existing: Option<CouchTv>,
    tv_id: &str,
    status: &str,
    current_image: Option<String>,
    timestamp: String,
) -> (r: CouchTv)
    ensures
        r.status@ == status@,
        r.last_heartbeat matches Some(t) && t == timestamp,
        match &existing {
            Some(doc) => {
                &&& r.id == doc.id
                &&& r.rev == doc.rev
                &&& r.doc_type == doc.doc_type
                &&& r.name == doc.name
                &&& r.location == doc.location
                &&& r.ip_address == doc.ip_address
                &&& r.config == doc.config
                &&& r.current_image == match &current_image {
                    Some(img) => Some(*img),
                    None => doc.current_image,
                }
            },
            None => {
                &&& r.id@ == tv_id@
                &&& r.rev is None
                &&& r.doc_type@ == "tv"@
                &&& r.location@ == "Unknown"@
                &&& r.ip_address@ == "0.0.0.0"@
                &&& r.config.transition_effect@ == "fade"@
                &&& r.config.display_duration == 5000
                &&& r.config.orientation@ == "landscape"@
                &&& r.current_image == current_image
            },
        },
{
    match existing {
        Some(mut doc) => {
            doc.status = status.to_owned();
            doc.last_heartbeat = Some(timestamp);
            match current_image {
                Some(img) => {
                    doc.current_image = Some(img);
                },
                None => {},
            }
            doc
        },
        None => CouchTv {
            id: tv_id.to_owned(),
            rev: None,
            doc_type: "tv".to_owned(),
            name: tv_id.to_owned(),
            location: "Unknown".to_owned(),
            ip_address: "0.0.0.0".to_owned(),
            status: status.to_owned(),
            last_heartbeat: Some(timestamp),
            config: default_tv_config(),
            current_image,
        },
    }
}

} // verus!
