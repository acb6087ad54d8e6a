//! Choosing the text extractor for a file from its extension.

use vstd::prelude::*;
use crate::table::{unique_keys, lookup, lemma_lookup_at, lemma_lookup_absent,
    lemma_lookup_update, lemma_lookup_push, find_key};

verus! {

/// The text extractors a file can be handed to.
#[derive(Clone, Copy, Debug, PartialEq, Eq, Structural)]
pub enum ParserKind {
    /// The content as it is.
    Text,
    /// The character data of an XML document.
    Xml,
    /// The inner text of the nodes of an HTML document.
    Html,
}

/// Why a file could not be indexed.
#[derive(Clone, Copy, Debug, PartialEq, Eq, Structural)]
pub enum FileError {
    /// The file name has no extension.
    MissingExtension,
    /// The file could not be opened or read.
    Unreadable,
    /// The extractor rejected the content.
    Malformed,
}

/// The extractor chosen for a file with extension `ext` under the table
/// `parsers`: the registered one, or the plain-text one when none is.
pub open spec fn chosen(parsers: Seq<(String, ParserKind)>, ext: Option<Seq<char>>) -> Result<
    ParserKind,
    FileError,
> {
    match ext {
        None => Err(FileError::MissingExtension),
        Some(e) => Ok(
            match lookup(parsers, e) {
                Some(k) => k,
                None => ParserKind::Text,
            },
        ),
    }
}

/// A table from file extension to text extractor.
pub struct ParserConfig {
    parsers: Vec<(String, ParserKind)>,
}

impl ParserConfig {
    pub closed spec fn wf(&self) -> bool {
        unique_keys(self.parsers@)
    }

    /// The registered extractor of each extension.
    pub closed spec fn table(&self) -> Seq<(String, ParserKind)> {
        self.parsers@
    }

    /// A table with no extension registered.
    pub fn new() -> (r: Self)
        ensures
            r.wf(),
            forall|e: Seq<char>| #[trigger] lookup(r.table(), e) is None,
    {
        Self { parsers: Vec::new() }
    }

    /// Registers `kind` for `extension`, replacing an earlier registration.
    pub fn insert(&mut self, extension: String, kind: ParserKind)
        requires
            old(self).wf(),
        ensures
            final(self).wf(),
            forall|e: Seq<char>|
                #[trigger] lookup(final(self).table(), e) == if e == extension@ {
                    Some(kind)
                } else {
                    lookup(old(self).table(), e)
                },
    {
        let ghost s0 = self.parsers@;
        let ghost ev = extension@;
        match find_key(&self.parsers, &extension) {
            Some(j) => {
                self.parsers[j].1 = kind;
                proof {
                    assert(self.parsers@ =~= s0.update(j as int, (s0[j as int].0, kind)));
                    assert forall|e: Seq<char>| #[trigger] lookup(self.parsers@, e) == if e == ev {
                        Some(kind)
                    } else {
                        lookup(s0, e)
                    } by {
                        lemma_lookup_update(s0, j as int, kind, e);
                    }
                }
            },
            None => {
                self.parsers.push((extension, kind));
                proof {
                    let x = self.parsers@.last();
                    assert(self.parsers@ =~= s0.push(x));
                    assert forall|e: Seq<char>| #[trigger] lookup(self.parsers@, e) == if e == ev {
                        Some(kind)
                    } else {
                        lookup(s0, e)
                    } by {
                        lemma_lookup_push(s0, x, e);
                    }
                }
            },
        }
    }

    /// The extractor for a file with extension `extension`: an error when
    /// there is none, the plain-text extractor when it is not registered.
    pub fn resolve(&self, extension: Option<&String>) -> (r: Result<ParserKind, FileError>)
        requires
            self.wf(),
        ensures
            r == chosen(
                self.table(),
                match extension {
                    Some(e) => Some(e@),
                    None => None,
                },
            ),
    {
        match extension {
            None => Err(FileError::MissingExtension),
            Some(e) => match find_key(&self.parsers, e) {
                Some(j) => {
                    proof {
                        lemma_lookup_at(self.parsers@, j as int);
                    }
                    Ok(self.parsers[j].1)
                },
                None => {
                    proof {
                        lemma_lookup_absent(self.parsers@, e@);
                    }
                    Ok(ParserKind::Text)
                },
            },
        }
    }
}

} // verus!
