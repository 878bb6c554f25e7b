//! Settings of the file context service, and the hash and summary it keeps
//! for each stored content.
use vstd::prelude::*;
use vstd::string::StringExecFns;
use crate::digest::{hex_text, sha256_hex, sha256_of};
use crate::text::{chars_of, lenient_text, lossy_text, push_char};

verus! {

/// Settings of the file context service.
#[derive(Debug, Clone)]
pub struct FileContextConfig {
    /// Most rounds the short-term layer keeps
    pub max_short_term_rounds: usize,
    /// Whether files are read through memory maps
    pub enable_mmap: bool,
    /// Whether operations are logged
    pub enable_logging: bool,
    /// Whether the incremental hash chain is kept
    pub enable_hash_chain: bool,
    /// Whether contents are distilled into summaries
    pub enable_distillation: bool,
    /// Whether the semantic fingerprint index is kept
    pub enable_semantic_index: bool,
    /// How many of the newest hash chain nodes go to the cloud
    pub cloud_chain_nodes: usize,
    /// Most results a semantic search returns
    pub max_search_results: usize,
}

impl Default for FileContextConfig {
    fn default() -> (c: Self)
        ensures
            c.max_short_term_rounds == 10,
            c.enable_mmap && c.enable_logging && c.enable_hash_chain && c.enable_distillation
                && c.enable_semantic_index,
            c.cloud_chain_nodes == 5,
            c.max_search_results == 10,
    {
        FileContextConfig {
            max_short_term_rounds: 10,
            enable_mmap: true,
            enable_logging: true,
            enable_hash_chain: true,
            enable_distillation: true,
            enable_semantic_index: true,
            cloud_chain_nodes: 5,
            max_search_results: 10,
        }
    }
}

/// Most characters of a summary before it is cut.
pub const SUMMARY_CHARS: usize = 200;

/// The hash under which `content` is stored: its SHA-256 digest in
/// lowercase hexadecimal.
pub fn compute_hash(content: &[u8]) -> (h: String)
    ensures
        h@ == hex_text(sha256_of(content@)),
{
    sha256_hex(content)
}

/// The summary of `content`: its text, cut after two hundred characters
/// and marked with an ellipsis where it is longer.
pub open spec fn summary_of(content: Seq<u8>) -> Seq<char> {
    let t = lenient_text(content);
    if t.len() <= SUMMARY_CHARS {
        t
    } else {
        t.take(SUMMARY_CHARS as int) + "..."@
    }
}

/// The summary of `content`: its text, cut after two hundred characters
/// and marked with an ellipsis where it is longer.
pub fn generate_summary(content: &[u8]) -> (s: String)
    ensures
        s@ == summary_of(content@),
{
    let text = lossy_text(content);
    let chars = chars_of(text.as_str());
    if chars.len() <= SUMMARY_CHARS {
        return text;
    }
    let mut s = String::new();
    let mut i: usize = 0;
    while i < SUMMARY_CHARS
        invariant
            i <= SUMMARY_CHARS,
            chars@.len() > SUMMARY_CHARS,
            s@ == chars@.take(i as int),
        decreases SUMMARY_CHARS - i,
    {
        push_char(&mut s, chars[i]);
        assert(chars@.take(i + 1) =~= chars@.take(i as int).push(chars@[i as int]));
        i += 1;
    }
    s.append("...");
    s
}

} // verus!
