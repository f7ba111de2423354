//! Per-run settings: plain values the dispatch policy is built from.
//!
//! Loading and saving the settings file is the caller's concern; this module
//! owns the shape of the settings and the validated key/value update.

use vstd::prelude::*;
use vstd::string::StringSliceAdditionalSpecFns;

use crate::errors::Error;
use crate::strutil::{all_digits, digits_val, eq_str, parse_u64, parse_usize};

verus! {

/// The run configuration consumed by the tracking core.
#[derive(Debug, Clone)]
pub struct Settings {
    /// Path of the URL-list file.
    pub urls_file: String,
    /// Default recipient postcode hint.
    pub postcode: Option<String>,
    /// Preferred language hint.
    pub language: Option<String>,
    /// Maximum age (in seconds) for cache entries to be reused.
    pub cache_seconds: u64,
    /// Maximum number of entries to cache (per URL).
    pub cache_max_entries: usize,
}

/// View of an optional string as an optional character sequence.
pub open spec fn opt_view(o: Option<String>) -> Option<Seq<char>> {
    match o {
        Some(s) => Some(s@),
        None => None,
    }
}

impl Settings {
    /// Update one key/value pair, validating the key and, for the numeric
    /// settings, the value. Unknown keys and malformed numbers are rejected
    /// and leave nothing changed (the error carries the input back).
    pub fn update(self, key: &str, value: &str) -> (r: Result<Settings, Error>)
        ensures
            r is Ok <==> (key@ == "urls_file"@ || key@ == "postcode"@ || key@ == "language"@ || (
            key@ == "cache_seconds"@ && all_digits(value.spec_bytes()) && digits_val(
                value.spec_bytes(),
            ) <= u64::MAX) || (key@ == "cache_max_entries"@ && all_digits(value.spec_bytes())
                && digits_val(value.spec_bytes()) <= usize::MAX)),
            r matches Ok(s2) ==> {
                &&& s2.urls_file@ == if key@ == "urls_file"@ {
                    value@
                } else {
                    self.urls_file@
                }
                &&& opt_view(s2.postcode) == if key@ == "postcode"@ {
                    Some(value@)
                } else {
                    opt_view(self.postcode)
                }
                &&& opt_view(s2.language) == if key@ == "language"@ {
                    Some(value@)
                } else {
                    opt_view(self.language)
                }
                &&& s2.cache_seconds == if key@ == "cache_seconds"@ {
                    digits_val(value.spec_bytes()) as u64
                } else {
                    self.cache_seconds
                }
                &&& s2.cache_max_entries == if key@ == "cache_max_entries"@ {
                    digits_val(value.spec_bytes()) as usize
                } else {
                    self.cache_max_entries
                }
            },
            r matches Err(e) ==> e matches Error::InvalidSetting(s) && s@ == (if key@
                == "cache_seconds"@ || key@ == "cache_max_entries"@ {
                value@
            } else {
                key@
            }),
    {
        proof {
            string_literals_distinct();
        }
        let mut s2 = self;
        if eq_str(key, "urls_file") {
            s2.urls_file = value.to_owned();
            Ok(s2)
        } else if eq_str(key, "postcode") {
            s2.postcode = Some(value.to_owned());
            Ok(s2)
        } else if eq_str(key, "language") {
            s2.language = Some(value.to_owned());
            Ok(s2)
        } else if eq_str(key, "cache_seconds") {
            match parse_u64(value) {
                Some(n) => {
                    s2.cache_seconds = n;
                    Ok(s2)
                },
                None => Err(Error::InvalidSetting(value.to_owned())),
            }
        } else if eq_str(key, "cache_max_entries") {
            match parse_usize(value) {
                Some(n) => {
                    s2.cache_max_entries = n;
                    Ok(s2)
                },
                None => Err(Error::InvalidSetting(value.to_owned())),
            }
        } else {
            Err(Error::InvalidSetting(key.to_owned()))
        }
    }
}

impl Default for Settings {
    /// The default configuration: a URL file named `packtrack.urls`, no
    /// postcode or language hint, a 30 second reuse window and at most 10
    /// cached entries per URL.
    fn default() -> (r: Settings)
        ensures
            r.urls_file@ == "packtrack.urls"@,
            r.postcode is None,
            r.language is None,
            r.cache_seconds == 30,
            r.cache_max_entries == 10,
    {
        Settings {
            urls_file: "packtrack.urls".to_owned(),
            postcode: None,
            language: None,
            cache_seconds: 30,
            cache_max_entries: 10,
        }
    }
}

/// The defaults, to be persisted by the caller in place of the current
/// settings file.
pub fn reset() -> (r: Settings)
    ensures
        r.urls_file@ == "packtrack.urls"@,
        r.postcode is None,
        r.language is None,
        r.cache_seconds == 30,
        r.cache_max_entries == 10,
{
    Settings::default()
}

/// The five setting keys are pairwise distinct words.
proof fn string_literals_distinct()
    ensures
        "urls_file"@ != "postcode"@,
        "urls_file"@ != "language"@,
        "urls_file"@ != "cache_seconds"@,
        "urls_file"@ != "cache_max_entries"@,
        "postcode"@ != "language"@,
        "postcode"@ != "cache_seconds"@,
        "postcode"@ != "cache_max_entries"@,
        "language"@ != "cache_seconds"@,
        "language"@ != "cache_max_entries"@,
        "cache_seconds"@ != "cache_max_entries"@,
{
    reveal_strlit("urls_file");
    reveal_strlit("postcode");
    reveal_strlit("language");
    reveal_strlit("cache_seconds");
    reveal_strlit("cache_max_entries");
    assert("urls_file"@.len() == 9);
    assert("postcode"@.len() == 8);
    assert("language"@.len() == 8);
    assert("cache_seconds"@.len() == 13);
    assert("cache_max_entries"@.len() == 17);
    assert("postcode"@[0] == 'p');
    assert("language"@[0] == 'l');
}

} // verus!
