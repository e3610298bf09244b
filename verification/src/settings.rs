//! What the caller may ask for each entry, and what the writer makes of it.

use vstd::prelude::*;
use crate::path::path_bytes;

verus! {

/// The least level that deflate takes.
pub const DEFLATE_MIN_LEVEL: i32 = 0;

/// The greatest level that deflate takes.
pub const DEFLATE_MAX_LEVEL: i32 = 9;

/// How the payload of an entry is kept in the container.
#[derive(Clone, Copy, Debug, PartialEq, Eq, Structural)]
pub enum CompressionMethod {
    /// The bytes as they are.
    Store,
    /// Deflate, at a level from 0 to 9.
    Deflate,
    /// Any other method of the format, by its number. The writer takes none of them.
    Unsupported(u16),
}

/// The settings of one entry, as the caller's policy gives them.
#[derive(Clone, Copy, Debug, PartialEq, Eq, Structural)]
pub struct EntrySettings {
    pub method: CompressionMethod,
    /// The level asked for; `None` leaves the choice to the method.
    pub level: Option<i32>,
}

/// The policy that picks the settings of each file from its relative path.
///
/// `settings_for` is the policy as a function of the path's bytes, and
/// `resolve` computes it: the same path always gets the same settings. A
/// policy has an answer for every path; where it knows nothing better it
/// answers [`store_settings`].
pub trait OptionsResolver {
    spec fn settings_for(&self, path: Seq<u8>) -> EntrySettings;

    fn resolve(&self, relative_path: &str) -> (s: EntrySettings)
        ensures
            s == self.settings_for(path_bytes(relative_path@)),
    ;
}

/// The policy that stores every entry as it is.
#[derive(Clone, Copy, Debug)]
pub struct StoreAll;

/// The policy that gives every entry the same settings.
#[derive(Clone, Copy, Debug)]
pub struct Uniform {
    pub settings: EntrySettings,
}

/// The policy that tells paths apart by how they end: one kind of settings
/// for the paths that end in `suffix`, another for the rest.
#[derive(Clone, Debug)]
pub struct BySuffix {
    pub suffix: String,
    pub matching: EntrySettings,
    pub otherwise: EntrySettings,
}

/// `path` ends in the bytes of `suffix`.
pub open spec fn ends_with(path: Seq<u8>, suffix: Seq<u8>) -> bool {
    &&& suffix.len() <= path.len()
    &&& forall|i: int| 0 <= i < suffix.len() ==> path[path.len() - suffix.len() + i] == suffix[i]
}

/// Settings that ask for no compression: the answer of a policy that cannot
/// tell what a path is.
pub open spec fn store_settings() -> EntrySettings {
    EntrySettings { method: CompressionMethod::Store, level: None }
}

/// The level nearest to `level` among those that deflate takes.
pub open spec fn clamped_level(level: i32) -> i32 {
    if level < DEFLATE_MIN_LEVEL {
        DEFLATE_MIN_LEVEL
    } else if level > DEFLATE_MAX_LEVEL {
        DEFLATE_MAX_LEVEL
    } else {
        level
    }
}

/// The method can be written.
pub open spec fn supported(method: CompressionMethod) -> bool {
    !(method is Unsupported)
}

/// The level that is used for an entry: none where the payload is stored, the
/// level asked for brought into deflate's range otherwise.
pub open spec fn effective_level(settings: EntrySettings) -> Option<i32> {
    match settings.method {
        CompressionMethod::Deflate => match settings.level {
            Some(l) => Some(clamped_level(l)),
            None => None,
        },
        _ => None,
    }
}

/// The settings that are used in place of `settings`.
pub open spec fn effective_settings(settings: EntrySettings) -> EntrySettings {
    EntrySettings { method: settings.method, level: effective_level(settings) }
}

impl EntrySettings {
    /// Settings that ask for no compression.
    pub fn store() -> (s: EntrySettings)
        ensures
            s == store_settings(),
    {
        EntrySettings { method: CompressionMethod::Store, level: None }
    }

    /// Settings that ask for deflate at `level`.
    pub fn deflate(level: i32) -> (s: EntrySettings)
        ensures
            s == (EntrySettings { method: CompressionMethod::Deflate, level: Some(level) }),
    {
        EntrySettings { method: CompressionMethod::Deflate, level: Some(level) }
    }

    /// Brings the settings into what the writer can use: the level is clamped
    /// to the range of the method. `None` where the method cannot be written.
    pub fn normalized(&self) -> (r: Option<EntrySettings>)
        ensures
            r == if supported(self.method) {
                Some(effective_settings(*self))
            } else {
                None
            },
            r matches Some(s) ==> effective_settings(s) == s,
    {
        match self.method {
            CompressionMethod::Store => Some(
                EntrySettings { method: CompressionMethod::Store, level: None },
            ),
            CompressionMethod::Deflate => {
                let level: Option<i32> = match self.level {
                    Some(l) => Some(clamp_level(l)),
                    None => None,
                };
                Some(EntrySettings { method: CompressionMethod::Deflate, level })
            },
            CompressionMethod::Unsupported(_) => None,
        }
    }
}

/// Brings a level into the range that deflate takes.
pub fn clamp_level(level: i32) -> (r: i32)
    ensures
        r == clamped_level(level),
        DEFLATE_MIN_LEVEL <= r <= DEFLATE_MAX_LEVEL,
        DEFLATE_MIN_LEVEL <= level <= DEFLATE_MAX_LEVEL ==> r == level,
{
    if level < DEFLATE_MIN_LEVEL {
        DEFLATE_MIN_LEVEL
    } else if level > DEFLATE_MAX_LEVEL {
        DEFLATE_MAX_LEVEL
    } else {
        level
    }
}

impl OptionsResolver for StoreAll {
    open spec fn settings_for(&self, path: Seq<u8>) -> EntrySettings {
        store_settings()
    }

    fn resolve(&self, relative_path: &str) -> (s: EntrySettings) {
        EntrySettings::store()
    }
}

impl OptionsResolver for Uniform {
    open spec fn settings_for(&self, path: Seq<u8>) -> EntrySettings {
        self.settings
    }

    fn resolve(&self, relative_path: &str) -> (s: EntrySettings) {
        self.settings
    }
}

/// Tells whether `path` ends in the bytes of `suffix`.
pub fn has_suffix(path: &[u8], suffix: &[u8]) -> (r: bool)
    ensures
        r == ends_with(path@, suffix@),
{
    let n: usize = path.len();
    let m: usize = suffix.len();
    if m > n {
        return false;
    }
    let mut i: usize = 0;
    while i < m
        invariant
            n == path@.len(),
            m == suffix@.len(),
            m <= n,
            i <= m,
            forall|k: int| 0 <= k < i ==> path@[n - m + k] == suffix@[k],
        decreases m - i,
    {
        if path[n - m + i] != suffix[i] {
            return false;
        }
        i += 1;
    }
    true
}

impl OptionsResolver for BySuffix {
    open spec fn settings_for(&self, path: Seq<u8>) -> EntrySettings {
        if ends_with(path, path_bytes(self.suffix@)) {
            self.matching
        } else {
            self.otherwise
        }
    }

    fn resolve(&self, relative_path: &str) -> (s: EntrySettings) {
        if has_suffix(relative_path.as_bytes(), self.suffix.as_str().as_bytes()) {
            self.matching
        } else {
            self.otherwise
        }
    }
}

} // verus!
