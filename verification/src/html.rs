//! Parsing a source that is held in a string.
use vstd::prelude::*;
use crate::error::{errors_view, ErrorModel};
use crate::forest::DocumentModel;
use crate::parser::agree::{lemma_halts_alike, lemma_modes_agree};
use crate::parser::speculative::{
    speculative_spec,
    stream_halts,
    void_childless,
    HtmlParseResult,
    SpeculativeHtmlParser,
};
use crate::parser::synchronous::{sync_spec, SyncHtmlParser};
use crate::text::{chars_of, str_eq, string_of};
use crate::tokenize::{char_stream, stream_of};
use crate::tokenizer::state::halts;
use crate::tokenizer::store::{StoreModel, TokenStore};

verus! {

/// How the tokens of a source reach the builder of the document.
#[derive(Clone, Copy, Debug, PartialEq, Eq, Structural)]
pub enum ParseMode {
    /// Build the tree as each token is parsed. Allows easier handling of
    /// internal styles and scripts.
    Speculative,
    /// Tokenize all at once before sending to the parser.
    Synchronous,
}

/// The outcome of parsing `input` in `mode`: the document, and the
/// diagnostics of the tokenizer followed by those of the builder.
pub open spec fn outcome_of(input: Seq<char>, mode: ParseMode) -> (
    DocumentModel,
    Seq<ErrorModel>,
) {
    match mode {
        ParseMode::Speculative => speculative_spec(StoreModel::start(), stream_of(input)),
        ParseMode::Synchronous => sync_spec(StoreModel::start(), stream_of(input)),
    }
}

/// The document that `input` stands for: the one that the builder makes of
/// its tokens.
pub open spec fn document_of(input: Seq<char>) -> DocumentModel {
    outcome_of(input, ParseMode::Synchronous).0
}

/// Parse an HTML string into a valid DOM tree. Every string has a tree: what
/// is wrong with it is recorded, and the parse goes on. The tree is the
/// same in both modes, the tokenizer reaches the end of every input, and no
/// void element of the tree has a child node.
pub fn parse_html_input(input: &str, mode: ParseMode) -> (result: HtmlParseResult)
    requires
        input@.len() < usize::MAX,
    ensures
        result.tree.wf(),
        (result.tree@, errors_view(result.errors@)) == outcome_of(input@, mode),
        result.tree@ == document_of(input@),
        void_childless(result.tree@),
        exists|steps: nat| halts(StoreModel::start(), stream_of(input@), steps),
{
    let iterator = char_stream(input);
    let token_store = TokenStore::new();
    match mode {
        ParseMode::Speculative => {
            let result = SpeculativeHtmlParser::parse(token_store, iterator);
            proof {
                let steps = choose|steps: nat|
                    stream_halts(StoreModel::start(), stream_of(input@), steps);
                lemma_halts_alike(StoreModel::start(), stream_of(input@), steps);
                lemma_modes_agree(StoreModel::start(), stream_of(input@), steps);
            }
            result
        },
        ParseMode::Synchronous => SyncHtmlParser::parse(token_store, iterator),
    }
}

/// What follows the last `.` of `address`. An address without a `.` has no
/// extension.
pub open spec fn extension_of(address: Seq<char>) -> Option<Seq<char>>
    decreases address.len(),
{
    if address.len() == 0 {
        None
    } else if address.last() == '.' {
        Some(Seq::empty())
    } else {
        match extension_of(address.drop_last()) {
            Some(extension) => Some(extension.push(address.last())),
            None => None,
        }
    }
}

/// Whether a file with the extension `extension` is taken for an HTML
/// source.
pub open spec fn is_html_extension(extension: Seq<char>) -> bool {
    extension == "html"@ || extension == "htm"@ || extension == "xhtml"@ || extension == "dhtml"@
}

/// The extension of the file at `address`, where it has one.
pub fn file_extension(address: &str) -> (extension: Option<String>)
    ensures
        match extension {
            Some(found) => extension_of(address@) == Some(found@),
            None => extension_of(address@) is None,
        },
{
    let chars = chars_of(address);
    let mut start: usize = chars.len();
    while start > 0 && chars[start - 1] != '.'
        invariant
            start <= chars.len(),
            forall|i: int| start <= i < chars.len() ==> chars@[i] != '.',
        decreases start,
    {
        start -= 1;
    }
    proof {
        lemma_extension(chars@, start as int);
    }
    if start == 0 {
        return None;
    }
    let mut extension: Vec<char> = Vec::new();
    let mut i = start;
    assert(chars@.subrange(start as int, start as int) =~= Seq::empty());
    while i < chars.len()
        invariant
            start <= i <= chars.len(),
            extension@ == chars@.subrange(start as int, i as int),
        decreases chars.len() - i,
    {
        extension.push(chars[i]);
        i += 1;
        assert(extension@ =~= chars@.subrange(start as int, i as int));
    }
    Some(string_of(&extension))
}

/// Where no `.` stands from `start` on, the extension is what stands from
/// `start` on if a `.` stands just before `start`, and there is none if
/// `start` is the beginning.
pub proof fn lemma_extension(address: Seq<char>, start: int)
    requires
        0 <= start <= address.len(),
        forall|i: int| start <= i < address.len() ==> address[i] != '.',
        start > 0 ==> address[start - 1] == '.',
    ensures
        extension_of(address) == if start == 0 {
            None
        } else {
            Some(address.subrange(start, address.len() as int))
        },
    decreases address.len(),
{
    if address.len() == 0 {
    } else if start == address.len() {
        assert(address.last() == '.');
        assert(address.subrange(start, address.len() as int) =~= Seq::empty());
    } else {
        let shorter = address.drop_last();
        lemma_extension(shorter, start);
        assert(shorter.subrange(start, shorter.len() as int).push(address.last())
            =~= address.subrange(start, address.len() as int));
    }
}

/// Whether the file at `address` is taken for an HTML source: it has an
/// extension, and that is `html`, `htm`, `xhtml` or `dhtml`.
pub fn accepts_file(address: &str) -> (accepted: bool)
    ensures
        accepted == match extension_of(address@) {
            Some(extension) => is_html_extension(extension),
            None => false,
        },
{
    match file_extension(address) {
        Some(extension) => {
            let extension = extension.as_str();
            str_eq(extension, "html") || str_eq(extension, "htm") || str_eq(extension, "xhtml")
                || str_eq(extension, "dhtml")
        },
        None => false,
    }
}

} // verus!
