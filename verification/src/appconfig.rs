//! The configuration that every connection reads and none changes.

use crate::text::views;
use vstd::prelude::*;
use vstd::string::*;

verus! {

/// Process-wide configuration, built once at start.
pub struct AppConfig {
    /// The directory under which files are served and stored. When absent,
    /// file names resolve as they are written.
    pub directory: Option<String>,
    /// The content encodings that the server offers, in order of listing.
    pub supported_encodings: Vec<String>,
}

impl AppConfig {
    /// The text that file names are appended to: the base directory, or
    /// nothing when none is configured.
    pub open spec fn directory_text(&self) -> Seq<char> {
        match self.directory {
            Some(directory) => directory@,
            None => Seq::empty(),
        }
    }

    /// The offered content encodings.
    pub open spec fn encodings(&self) -> Seq<Seq<char>> {
        views(self.supported_encodings@)
    }

    /// A configuration that serves files from `directory` and offers the
    /// encodings `text/plain` and `gzip`.
    pub fn new(directory: Option<String>) -> (r: AppConfig)
        ensures
            r.directory == directory,
            r.encodings() == seq!["text/plain"@, "gzip"@],
    {
        let mut supported_encodings: Vec<String> = Vec::new();
        supported_encodings.push("text/plain".to_owned());
        supported_encodings.push("gzip".to_owned());
        let r = AppConfig { directory, supported_encodings };
        proof {
            assert(r.encodings() =~= seq!["text/plain"@, "gzip"@]);
        }
        r
    }
}

impl Clone for AppConfig {
    /// A configuration with the same directory and the same encodings.
    fn clone(&self) -> (r: AppConfig)
        ensures
            r.directory is Some == self.directory is Some,
            r.directory_text() == self.directory_text(),
            r.encodings() == self.encodings(),
    {
        let directory = match &self.directory {
            Some(directory) => Some(directory.clone()),
            None => None,
        };
        let mut supported_encodings: Vec<String> = Vec::new();
        let mut i: usize = 0;
        while i < self.supported_encodings.len()
            invariant
                i <= self.supported_encodings.len(),
                views(supported_encodings@) == self.encodings().take(i as int),
            decreases self.supported_encodings.len() - i,
        {
            let ghost before = views(supported_encodings@);
            let encoding = self.supported_encodings[i].clone();
            supported_encodings.push(encoding);
            proof {
                assert(self.encodings()[i as int] == encoding@);
                assert(views(supported_encodings@) =~= before.push(encoding@));
                assert(self.encodings().take(i + 1) =~= before.push(encoding@));
            }
            i += 1;
        }
        proof {
            assert(self.encodings().take(i as int) =~= self.encodings());
        }
        AppConfig { directory, supported_encodings }
    }
}

} // verus!
