//! Plain text from structured documents: the character data of XML and the
//! inner text of HTML nodes, each piece followed by a space.

use vstd::prelude::*;
use crate::chars::{chars_of, string_of};
use crate::dispatch::FileError;
use crate::table::views;

verus! {

/// The character data of the XML document `doc`, one entry per text event,
/// or `None` when the document is malformed.
pub uninterp spec fn xml_character_data(doc: Seq<char>) -> Option<Seq<Seq<char>>>;

/// The inner text of each node of the HTML document `doc`, or `None` when it
/// cannot be parsed.
pub uninterp spec fn html_node_texts(doc: Seq<char>) -> Option<Seq<Seq<char>>>;

/// Relies on `xml::reader::EventReader`: the text of every `Characters`
/// event, in document order, or `None` at the first reading error.
#[verifier::external_body]
fn xml_texts(doc: &str) -> (r: Option<Vec<String>>)
    ensures
        match r {
            Some(v) => xml_character_data(doc@) == Some(views(v@)),
            None => xml_character_data(doc@) is None,
        },
{
    let mut texts = Vec::new();
    for event in xml::reader::EventReader::from_str(doc) {
        match event {
            Ok(xml::reader::XmlEvent::Characters(text)) => texts.push(text),
            Ok(_) => {},
            Err(_) => return None,
        }
    }
    Some(texts)
}

/// Relies on `tl::parse` with default options and `Node::inner_text`: the
/// inner text of every node of the DOM, in node order, or `None` when
/// parsing fails.
#[verifier::external_body]
fn html_texts(doc: &str) -> (r: Option<Vec<String>>)
    ensures
        match r {
            Some(v) => html_node_texts(doc@) == Some(views(v@)),
            None => html_node_texts(doc@) is None,
        },
{
    let dom = match tl::parse(doc, tl::ParserOptions::default()) {
        Ok(dom) => dom,
        Err(_) => return None,
    };
    let mut texts = Vec::new();
    for node in dom.nodes().iter() {
        texts.push(node.inner_text(dom.parser()).to_string());
    }
    Some(texts)
}

/// The pieces of `s`, each followed by a single space.
pub open spec fn spaced(s: Seq<Seq<char>>) -> Seq<char>
    decreases s.len(),
{
    if s.len() == 0 {
        seq![]
    } else {
        spaced(s.drop_last()) + s.last() + seq![' ']
    }
}

/// Whether `s` takes more than one byte in UTF-8: two characters or more,
/// or a single character outside ASCII.
pub open spec fn longer_than_one_byte(s: Seq<char>) -> bool {
    s.len() >= 2 || (s.len() == 1 && (s[0] as u32) >= 128)
}

/// The pieces of `s` that take more than one byte.
pub open spec fn long_pieces(s: Seq<Seq<char>>) -> Seq<Seq<char>>
    decreases s.len(),
{
    if s.len() == 0 {
        seq![]
    } else if longer_than_one_byte(s.last()) {
        long_pieces(s.drop_last()).push(s.last())
    } else {
        long_pieces(s.drop_last())
    }
}

/// Concatenates `pieces`, each followed by a space; with `skip_short`, the
/// pieces of at most one byte are left out.
pub fn join_spaced(pieces: &Vec<String>, skip_short: bool) -> (r: String)
    ensures
        r@ == spaced(
            if skip_short {
                long_pieces(views(pieces@))
            } else {
                views(pieces@)
            },
        ),
{
    let ghost all = views(pieces@);
    let mut out: Vec<char> = Vec::new();
    let mut i: usize = 0;
    while i < pieces.len()
        invariant
            i <= pieces@.len(),
            all == views(pieces@),
            out@ == spaced(
                if skip_short {
                    long_pieces(all.take(i as int))
                } else {
                    all.take(i as int)
                },
            ),
        decreases pieces@.len() - i,
    {
        let cs = chars_of(pieces[i].as_str());
        proof {
            assert(all.take(i as int + 1).drop_last() =~= all.take(i as int));
            assert(all.take(i as int + 1).last() == cs@);
        }
        let keep = !skip_short || cs.len() >= 2 || (cs.len() == 1 && (cs[0] as u32) >= 128);
        if keep {
            let ghost before = out@;
            let mut k: usize = 0;
            while k < cs.len()
                invariant
                    k <= cs@.len(),
                    out@ == before + cs@.take(k as int),
                decreases cs@.len() - k,
            {
                out.push(cs[k]);
                k += 1;
                assert(out@ =~= before + cs@.take(k as int));
            }
            out.push(' ');
            proof {
                assert(cs@.take(k as int) =~= cs@);
                let done = if skip_short {
                    long_pieces(all.take(i as int + 1))
                } else {
                    all.take(i as int + 1)
                };
                let prev = if skip_short {
                    long_pieces(all.take(i as int))
                } else {
                    all.take(i as int)
                };
                assert(done.drop_last() =~= prev);
                assert(done.last() == cs@);
                assert(out@ =~= spaced(prev) + cs@ + seq![' ']);
            }
        }
        i += 1;
    }
    proof {
        assert(all.take(i as int) =~= all);
    }
    string_of(out.as_slice())
}

/// The text of an XML document: its character data, each piece followed by
/// a space; an error when the document is malformed.
pub fn xml_text(doc: &str) -> (r: Result<String, FileError>)
    ensures
        match xml_character_data(doc@) {
            None => r == Err::<String, FileError>(FileError::Malformed),
            Some(ps) => r is Ok && r->Ok_0@ == spaced(ps),
        },
{
    match xml_texts(doc) {
        None => Err(FileError::Malformed),
        Some(v) => Ok(join_spaced(&v, false)),
    }
}

/// The text of an HTML document: the inner text of each node longer than one
/// byte, each followed by a space; an error when it cannot be parsed.
pub fn html_text(doc: &str) -> (r: Result<String, FileError>)
    ensures
        match html_node_texts(doc@) {
            None => r == Err::<String, FileError>(FileError::Malformed),
            Some(ps) => r is Ok && r->Ok_0@ == spaced(long_pieces(ps)),
        },
{
    match html_texts(doc) {
        None => Err(FileError::Malformed),
        Some(v) => Ok(join_spaced(&v, true)),
    }
}

} // verus!
