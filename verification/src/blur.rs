//! Blur-cache freshness: whether the blurred, darkened derivative of a
//! wallpaper must be regenerated, and the cache path it lives under.
use vstd::prelude::*;
use vstd::string::StringExecFns;

verus! {

/// What one blur-generation request should do.
#[derive(Clone, Copy, Debug, PartialEq, Eq, Structural)]
pub enum BlurAction {
    /// The source's modification time cannot be read: do nothing.
    SkipMissingSource,
    /// The cached derivative is at least as new as the source: keep it.
    SkipFresh,
    /// Produce the derivative; `create_parent` says whether the cache
    /// directory must be made first, because the derivative did not exist.
    Regenerate { create_parent: bool },
}

/// The decision `generate_if_needed` acts on: regenerate unless the
/// source's time is unreadable or the existing derivative is known to be
/// at least as new as the source. A derivative that exists but whose time
/// cannot be read counts as maximally stale and is always regenerated.
pub open spec fn blur_decision_spec(
    source_mtime: Option<u64>,
    dest_exists: bool,
    dest_mtime: Option<u64>,
) -> BlurAction {
    match source_mtime {
        None => BlurAction::SkipMissingSource,
        Some(src) => if dest_exists {
            match dest_mtime {
                Some(cached) => if cached >= src {
                    BlurAction::SkipFresh
                } else {
                    BlurAction::Regenerate { create_parent: false }
                },
                None => BlurAction::Regenerate { create_parent: false },
            }
        } else {
            BlurAction::Regenerate { create_parent: true }
        },
    }
}

/// Decides one blur-generation request from the observed modification
/// times; the caller reads the times, then performs the action decided
/// here.
pub fn blur_decision(source_mtime: Option<u64>, dest_exists: bool, dest_mtime: Option<u64>) -> (r:
    BlurAction)
    ensures
        r == blur_decision_spec(source_mtime, dest_exists, dest_mtime),
{
    match source_mtime {
        None => BlurAction::SkipMissingSource,
        Some(src) => {
            if dest_exists {
                match dest_mtime {
                    Some(cached) => {
                        if cached >= src {
                            BlurAction::SkipFresh
                        } else {
                            BlurAction::Regenerate { create_parent: false }
                        }
                    },
                    None => BlurAction::Regenerate { create_parent: false },
                }
            } else {
                BlurAction::Regenerate { create_parent: true }
            }
        },
    }
}

/// Idempotence of blur generation: once the derivative exists and is at
/// least as new as the source, a further request with the source unchanged
/// skips without doing any work.
pub proof fn lemma_blur_idempotent(src: u64, cached: u64)
    requires
        cached >= src,
    ensures
        blur_decision_spec(Some(src), true, Some(cached)) == BlurAction::SkipFresh,
{
}

/// Touching the source after the derivative exists forces regeneration: a
/// derivative older than its source is remade on the next request.
pub proof fn lemma_blur_regenerated_after_touch(src: u64, cached: u64)
    requires
        cached < src,
    ensures
        blur_decision_spec(Some(src), true, Some(cached)) == (BlurAction::Regenerate {
            create_parent: false,
        }),
{
}

/// An existing derivative whose modification time cannot be read counts
/// as maximally stale: it is regenerated whatever the source's time.
pub proof fn lemma_unreadable_derivative_is_stale(src: u64)
    ensures
        blur_decision_spec(Some(src), true, None) == (BlurAction::Regenerate {
            create_parent: false,
        }),
{
}

/// What the blake3 hash of a text reads as lowercase hexadecimal.
pub uninterp spec fn blake3_hex_of(text: Seq<char>) -> Seq<char>;

/// Relies on blake3::hash and blake3::Hash::to_hex: the 32-byte digest of
/// the text's bytes, written as 64 lowercase hexadecimal characters, a
/// function of the text alone.
#[verifier::external_body]
fn blake3_hex(s: &str) -> (r: String)
    ensures
        r@ == blake3_hex_of(s@),
        r@.len() == 64,
{
    let hex = blake3::hash(s.as_bytes()).to_hex();
    hex.as_str().to_string()
}

/// The cache path of the blurred derivative of `source`: a PNG named by
/// the hash of the source path, in the fixed cache directory.
pub fn blur_cache_path(source: &String) -> (r: String)
    ensures
        r@ == "/tmp/hyprlock-cache/"@ + blake3_hex_of(source@) + ".png"@,
{
    let mut r = String::from_str("/tmp/hyprlock-cache/");
    let hex = blake3_hex(source.as_str());
    r.append(hex.as_str());
    r.append(".png");
    r
}

} // verus!
