//! Where the per-user cache lives, from the environment of the process.
use vstd::prelude::*;
use vstd::string::StringSliceAdditionalSpecFns;
use crate::text::{append_text, is_alpha, string_bytes};

verus! {

/// The environment values that locate the cache.
#[derive(Debug)]
pub struct CacheEnvironment {
    pub local_app_data: Option<String>,
    pub home: Option<String>,
    pub xdg_cache_home: Option<String>,
}

/// The platform whose conventions place the cache.
#[derive(Clone, Copy, Debug, PartialEq, Eq, Structural)]
pub enum CachePlatform {
    Windows,
    MacOs,
    Unix,
    Other,
}

/// An absolute path on Windows: a drive letter, `:` and a separator, or a
/// path that starts with two separators (a UNC or verbatim prefix).
pub open spec fn windows_absolute(b: Seq<u8>) -> bool {
    ||| b.len() >= 3 && is_alpha(b[0]) && b[1] == 58u8 && (b[2] == 92u8 || b[2] == 47u8)
    ||| b.len() >= 2 && (b[0] == 92u8 || b[0] == 47u8) && (b[1] == 92u8 || b[1] == 47u8)
}

/// An absolute path elsewhere: it starts with `/`.
pub open spec fn unix_absolute(b: Seq<u8>) -> bool {
    b.len() >= 1 && b[0] == 47u8
}

/// `base` joined with a relative component: a `/` between them unless
/// `base` is empty or ends with one.
pub open spec fn joined_path(base: Seq<u8>, part: Seq<u8>) -> Seq<u8> {
    if base.len() == 0 || base.last() == 47u8 {
        base + part
    } else {
        base + "/".spec_bytes() + part
    }
}

/// The cache base of a platform: on Windows the local application data
/// directory, on macOS `Library/Caches` in the home directory, on other
/// Unix systems the XDG cache directory, else `.cache` in the home
/// directory; each only when absolute.
pub open spec fn cache_base_spec(environment: CacheEnvironment, platform: CachePlatform) -> Option<Seq<u8>> {
    match platform {
        CachePlatform::Windows => match environment.local_app_data {
            Some(p) => if windows_absolute(string_bytes(p)) {
                Some(string_bytes(p))
            } else {
                None
            },
            None => None,
        },
        CachePlatform::MacOs => match environment.home {
            Some(h) => if unix_absolute(string_bytes(h)) {
                Some(joined_path(joined_path(string_bytes(h), "Library".spec_bytes()), "Caches".spec_bytes()))
            } else {
                None
            },
            None => None,
        },
        CachePlatform::Unix => {
            let home = match environment.home {
                Some(h) => if unix_absolute(string_bytes(h)) {
                    Some(joined_path(string_bytes(h), ".cache".spec_bytes()))
                } else {
                    None
                },
                None => None,
            };
            match environment.xdg_cache_home {
                Some(x) => if unix_absolute(string_bytes(x)) {
                    Some(string_bytes(x))
                } else {
                    home
                },
                None => home,
            }
        },
        CachePlatform::Other => None,
    }
}

fn join_component(base: &String, part: &str) -> (r: String)
    ensures
        string_bytes(r) == joined_path(string_bytes(*base), part.spec_bytes()),
{
    let b = base.as_str().as_bytes();
    let mut out = base.clone();
    if b.len() == 0 || b[b.len() - 1] == 47u8 {
        append_text(&mut out, part);
    } else {
        append_text(&mut out, "/");
        append_text(&mut out, part);
        assert(string_bytes(out) =~= string_bytes(*base) + "/".spec_bytes() + part.spec_bytes());
    }
    out
}

fn absolute_on_unix(p: &String) -> (r: bool)
    ensures
        r == unix_absolute(string_bytes(*p)),
{
    let b = p.as_str().as_bytes();
    b.len() >= 1 && b[0] == 47u8
}

fn absolute_on_windows(p: &String) -> (r: bool)
    ensures
        r == windows_absolute(string_bytes(*p)),
{
    let b = p.as_str().as_bytes();
    (b.len() >= 3 && crate::text::is_alpha_byte(b[0]) && b[1] == 58u8 && (b[2] == 92u8 || b[2] == 47u8)) || (
    b.len() >= 2 && (b[0] == 92u8 || b[0] == 47u8) && (b[1] == 92u8 || b[1] == 47u8))
}

/// The directory under which the cache lives (`platform_cache_base_from`).
pub fn platform_cache_base_from(environment: &CacheEnvironment, platform: CachePlatform) -> (r: Option<String>)
    ensures
        match cache_base_spec(*environment, platform) {
            Some(b) => r matches Some(s) && string_bytes(s) == b,
            None => r is None,
        },
{
    match platform {
        CachePlatform::Windows => match &environment.local_app_data {
            Some(p) => if absolute_on_windows(p) {
                Some(p.clone())
            } else {
                None
            },
            None => None,
        },
        CachePlatform::MacOs => match &environment.home {
            Some(h) => if absolute_on_unix(h) {
                let library = join_component(h, "Library");
                Some(join_component(&library, "Caches"))
            } else {
                None
            },
            None => None,
        },
        CachePlatform::Unix => {
            if let Some(x) = &environment.xdg_cache_home {
                if absolute_on_unix(x) {
                    return Some(x.clone());
                }
            }
            match &environment.home {
                Some(h) => if absolute_on_unix(h) {
                    Some(join_component(h, ".cache"))
                } else {
                    None
                },
                None => None,
            }
        },
        CachePlatform::Other => None,
    }
}

} // verus!
