use vstd::prelude::*;

verus! {

/// Which paths a subscriber hears of.
pub enum PathFilter {
    /// Every path.
    Any,
    /// The one path equal to the pattern.
    Exact(String),
    /// The paths that start with the prefix.
    Prefix(String),
    /// The paths that end with the suffix.
    Suffix(String),
    /// The paths that start with the prefix and end with the suffix, the
    /// two not overlapping.
    Wildcard { prefix: String, suffix: String },
}

impl PathFilter {
    /// The filter accepts `path`.
    pub open spec fn matches(&self, path: Seq<char>) -> bool {
        match self {
            PathFilter::Any => true,
            PathFilter::Exact(pattern) => path == pattern@,
            PathFilter::Prefix(prefix) => prefix@.is_prefix_of(path),
            PathFilter::Suffix(suffix) => suffix@.is_suffix_of(path),
            PathFilter::Wildcard { prefix, suffix } => {
                &&& path.len() >= prefix@.len() + suffix@.len()
                &&& prefix@.is_prefix_of(path)
                &&& suffix@.is_suffix_of(path)
            },
        }
    }
}

} // verus!
