//! The builder itself, which takes one token at a time, and the parser that
//! feeds it while the tokenizer runs.
use vstd::prelude::*;
use crate::element::{attribute_entries, ElementRef};
use crate::error::{errors_view, ErrorKindModel, ErrorModel, HtmlParseError, HtmlParseErrorType};
use crate::forest::{
    lemma_with_all,
    AttributeDataModel,
    Attributes,
    DocumentModel,
    ElementModel,
};
use crate::html_node::{
    locus_of,
    DocRef,
    ElementSpanModel,
    HtmlComment,
    HtmlDocType,
    HtmlNode,
    HtmlTextNode,
    Locus,
    NodeModel,
    Span,
    SpanModel,
};
use crate::tag::{is_void_name, HtmlTag};
use crate::token::{
    attributes_view,
    AttributeModel,
    HtmlAttribute,
    HtmlToken,
    TokenModel,
};
use crate::queue_iterator::{QueueIterator, QueueModel};
use crate::token::tokens_view;
use crate::tokenizer::state::{rank, step, step_spec, Machine, State};
use crate::tokenizer::store::{StoreModel, TokenStore};
use crate::tree::HtmlDocument;

verus! {

/// The result of the Html parsing process.
/// The parser tries to produce a valid HTML DOM Tree regardless of how
/// wrangled or broken the input string is. The resulting tree, as well as
/// errors encountered, are stored on this struct.
pub struct HtmlParseResult {
    pub tree: HtmlDocument,
    pub errors: Vec<HtmlParseError>,
}

/// What the builder asks of the tokenizer after a token.
#[derive(Clone, Copy, Debug, PartialEq, Eq, Structural)]
pub enum ParserResponse {
    SwitchToStyleSheet,
    SwitchToScript,
    Continue,
}

/// What the builder holds: the document as far as it is built, the element
/// that is open, and the diagnostics it has recorded.
pub struct BuilderModel {
    pub tree: DocumentModel,
    pub current: Option<ElementRef>,
    pub errors: Seq<ErrorModel>,
}

/// The attributes of a tag as those of an element.
pub open spec fn entries_of(attributes: Seq<AttributeModel>) -> Attributes {
    Seq::new(
        attributes.len(),
        |i: int|
            (
                attributes[i].key,
                AttributeDataModel {
                    data: attributes[i].value,
                    quote_type: attributes[i].quote_type,
                },
            ),
    )
}

impl BuilderModel {
    /// The builder before the first token.
    pub open spec fn start() -> BuilderModel {
        BuilderModel { tree: DocumentModel::empty(), current: None, errors: Seq::empty() }
    }

    /// The document is a forest, and the open element is one of its
    /// elements.
    pub open spec fn wf(self) -> bool {
        &&& self.tree.wf()
        &&& self.current matches Some(c) ==> self.tree.has(c)
    }

    /// The builder with one more diagnostic.
    pub open spec fn error(self, kind: ErrorKindModel, location: Locus) -> BuilderModel {
        BuilderModel { errors: self.errors.push(ErrorModel { kind, location }), ..self }
    }

    /// The builder with `node`, which is no element, added to the open
    /// element, or at the root where no element is open.
    pub open spec fn add(self, node: NodeModel) -> BuilderModel {
        BuilderModel {
            tree: match self.current {
                Some(c) => self.tree.add_node(c, node),
                None => self.tree.add_root_node(node),
            },
            ..self
        }
    }

    /// After an opening tag: a new element with the attributes of the tag
    /// is added to the open element, or at the root where none is open. It
    /// becomes the open element, unless the tag closes itself or names a
    /// void element. A tag that closes itself without naming a void element
    /// is recorded.
    pub open spec fn open(
        self,
        name: Seq<char>,
        attributes: Seq<AttributeModel>,
        span: SpanModel,
        self_closing: bool,
    ) -> BuilderModel {
        let is_void = is_void_name(name);
        let element = ElementModel::parsed(name, entries_of(attributes), span);
        let e = ElementRef { index: self.tree.elements.len() as usize };
        let created = self.tree.create(element);
        let noted = if self_closing && !is_void {
            self.error(ErrorKindModel::SelfClosingNonVoidTag, span.end)
        } else {
            self
        };
        BuilderModel {
            tree: match self.current {
                Some(p) => created.append(p, e),
                None => created.append_root(e),
            },
            current: if !self_closing && !is_void {
                Some(e)
            } else {
                self.current
            },
            ..noted
        }
    }

    /// After a closing tag: the open element is closed where the tag names
    /// it, and its parent is open again. A closing tag for a void element,
    /// and one that does not name the open element, is recorded and
    /// dropped.
    pub open spec fn close(self, name: Seq<char>, span: SpanModel) -> BuilderModel {
        if is_void_name(name) {
            self.error(ErrorKindModel::VoidElementEndTag(name), span.start)
        } else {
            match self.current {
                Some(c) => if self.tree.element(c).name == name {
                    let element = self.tree.element(c);
                    BuilderModel {
                        tree: self.tree.with_element(
                            c,
                            ElementModel {
                                location: ElementSpanModel {
                                    close_tag: Some(span),
                                    ..element.location
                                },
                                ..element
                            },
                        ),
                        current: self.tree.parent(c),
                        ..self
                    }
                } else {
                    self.error(ErrorKindModel::UnexpectedCloseTag(name), span.start)
                },
                None => self.error(ErrorKindModel::UnexpectedCloseTag(name), span.start),
            }
        }
    }

    /// At the end of the input: an element that is still open is recorded
    /// at `location`, and no element is open any more.
    pub open spec fn end(self, location: Locus) -> BuilderModel {
        match self.current {
            Some(c) => BuilderModel {
                current: None,
                ..self.error(ErrorKindModel::UnclosedTag(self.tree.element(c).name), location)
            },
            None => self,
        }
    }

    /// The builder after `token`.
    pub open spec fn receive(self, token: TokenModel) -> BuilderModel {
        match token {
            TokenModel::OpeningTag { name, attributes, span, self_closing } => self.open(
                name,
                attributes,
                span,
                self_closing,
            ),
            TokenModel::ClosingTag { name, span } => self.close(name, span),
            TokenModel::Text { content, span } => self.add(NodeModel::Text { content, span }),
            TokenModel::Comment { content, span } => self.add(
                NodeModel::Comment { content, span },
            ),
            TokenModel::DocType { root, identifier, force_quirks } => BuilderModel {
                tree: self.tree.add_root_node(
                    NodeModel::DocType { name: root, identifier, force_quirks },
                ),
                ..self
            },
            TokenModel::CharacterRef { .. } => self,
            TokenModel::EOF { location } => self.end(location),
        }
    }

    /// The builder after each of `tokens` in turn.
    pub open spec fn feed(self, tokens: Seq<TokenModel>) -> BuilderModel
        decreases tokens.len(),
    {
        if tokens.len() == 0 {
            self
        } else {
            self.feed(tokens.drop_last()).receive(tokens.last())
        }
    }

    /// The outcome of a parse: the document that was built, and the
    /// diagnostics of the tokenizer followed by those of the builder. An
    /// element that is still open is recorded at the end of its opening
    /// tag.
    pub open spec fn finish(self, tokenizer_errors: Seq<ErrorModel>) -> (
        DocumentModel,
        Seq<ErrorModel>,
    ) {
        let ended = match self.current {
            Some(c) => self.end(self.tree.element(c).end()),
            None => self,
        };
        (ended.tree, tokenizer_errors + ended.errors)
    }
}

/// What the builder asks of the tokenizer after `token`: to go on, or to
/// read what follows as a script or a style sheet.
pub open spec fn response_to(token: TokenModel) -> ParserResponse {
    match token {
        TokenModel::OpeningTag { name, .. } => if name == "script"@ {
            ParserResponse::SwitchToScript
        } else if name == "style"@ {
            ParserResponse::SwitchToStyleSheet
        } else {
            ParserResponse::Continue
        },
        _ => ParserResponse::Continue,
    }
}

/// A parser that constructs the document tree bit by bit from a stream of
/// tokens.
pub struct Parser {
    tree: HtmlDocument,
    current_element: Option<ElementRef>,
    errors: Vec<HtmlParseError>,
}

impl View for Parser {
    type V = BuilderModel;

    closed spec fn view(&self) -> BuilderModel {
        BuilderModel {
            tree: self.tree@,
            current: self.current_element,
            errors: errors_view(self.errors@),
        }
    }
}

impl Parser {
    /// The builder before the first token.
    pub fn new() -> (parser: Parser)
        ensures
            parser@ == BuilderModel::start(),
            parser@.wf(),
            parser@.built(),
    {
        let parser = Parser {
            tree: HtmlDocument::new(),
            current_element: None,
            errors: Vec::new(),
        };
        assert(parser@.errors =~= Seq::empty());
        parser
    }

    /// Records a diagnostic.
    fn error(&mut self, error_type: HtmlParseErrorType, location: [usize; 2])
        ensures
            final(self)@ == old(self)@.error(error_type@, locus_of(location)),
    {
        let ghost before = self.errors@;
        let error = HtmlParseError { error_type, location };
        self.errors.push(error);
        assert(errors_view(self.errors@) =~= errors_view(before).push(error@));
    }

    /// Takes a token and says how the tokenizer is to go on.
    pub fn receive(&mut self, token: HtmlToken) -> (response: ParserResponse)
        requires
            old(self)@.wf(),
        ensures
            final(self)@.wf(),
            final(self)@ == old(self)@.receive(token@),
            response == response_to(token@),
            old(self)@.built() ==> final(self)@.built(),
    {
        let response = self.take(token);
        proof {
            if old(self)@.built() {
                old(self)@.lemma_receive_built(token@);
            }
        }
        response
    }

    /// Makes of a token what it stands for.
    fn take(&mut self, token: HtmlToken) -> (response: ParserResponse)
        requires
            old(self)@.wf(),
        ensures
            final(self)@.wf(),
            final(self)@ == old(self)@.receive(token@),
            response == response_to(token@),
            final(self)@.tree.elements.len() <= usize::MAX,
    {
        match token {
            HtmlToken::OpeningTag { name, attributes, span, self_closing } => {
                let response = if name.same(&HtmlTag::Script) {
                    ParserResponse::SwitchToScript
                } else if name.same(&HtmlTag::Style) {
                    ParserResponse::SwitchToStyleSheet
                } else {
                    ParserResponse::Continue
                };
                self.parse_opening_tag(name, attributes, span, self_closing);
                response
            },
            HtmlToken::ClosingTag { name, span } => {
                self.parse_closing_tag(name, span);
                ParserResponse::Continue
            },
            HtmlToken::Text { content, span } => {
                self.parse_text(content, span);
                ParserResponse::Continue
            },
            HtmlToken::Comment { content, span } => {
                self.parse_comment(content, span);
                ParserResponse::Continue
            },
            HtmlToken::DocType { root, identifier, force_quirks } => {
                self.tree.append_node(
                    HtmlNode::DocType(
                        DocRef { doctype: HtmlDocType { name: root, identifier, force_quirks } },
                    ),
                );
                ParserResponse::Continue
            },
            HtmlToken::CharacterRef { .. } => ParserResponse::Continue,
            HtmlToken::EOF { location } => {
                self.parse_end(location);
                ParserResponse::Continue
            },
        }
    }

    /// Makes the element that an opening tag stands for. It stands alone
    /// until it is given its place.
    fn create_element(
        &mut self,
        name: HtmlTag,
        attributes: Vec<HtmlAttribute>,
        span: Span,
        self_closing: bool,
    ) -> (e: ElementRef)
        requires
            old(self)@.wf(),
        ensures
            final(self)@.wf(),
            e.index == old(self)@.tree.elements.len(),
            final(self)@.tree.has(e),
            final(self)@ == (BuilderModel {
                tree: old(self)@.tree.create(
                    ElementModel::parsed(name@, attribute_entries(attributes@), span@),
                ),
                ..if self_closing && !is_void_name(name@) {
                    old(self)@.error(ErrorKindModel::SelfClosingNonVoidTag, span@.end)
                } else {
                    old(self)@
                }
            }),
    {
        let is_void = name.is_void();
        let new_element = ElementRef::init(&mut self.tree, name, attributes, span);
        // Elements that are not void cannot be self closing. Not a fatal error.
        if self_closing && !is_void {
            let end = new_element.get_end(&self.tree);
            self.error(HtmlParseErrorType::SelfClosingNonVoidTag, end);
        }
        new_element
    }

    /// Gives a new element its place: among the children of the open
    /// element, or at the root.
    fn place_element(&mut self, new_element: ElementRef)
        requires
            old(self)@.wf(),
            old(self)@.tree.has(new_element),
        ensures
            final(self)@.wf(),
            final(self)@.tree.has(new_element),
            final(self)@ == (BuilderModel {
                tree: match old(self)@.current {
                    Some(p) => old(self)@.tree.append(p, new_element),
                    None => old(self)@.tree.append_root(new_element),
                },
                ..old(self)@
            }),
    {
        match self.current_element {
            Some(element) => {
                proof {
                    self.tree@.lemma_append(element, new_element);
                }
                element.append(&mut self.tree, &new_element);
            },
            // If there is no parent, treat as root element.
            None => {
                proof {
                    self.tree@.lemma_detach(new_element);
                }
                self.tree.append(&new_element);
            },
        }
    }

    /// Takes an opening tag.
    fn parse_opening_tag(
        &mut self,
        name: HtmlTag,
        attributes: Vec<HtmlAttribute>,
        span: Span,
        self_closing: bool,
    )
        requires
            old(self)@.wf(),
        ensures
            final(self)@.wf(),
            final(self)@ == old(self)@.open(
                name@,
                attributes_view(attributes@),
                span@,
                self_closing,
            ),
    {
        let is_void = name.is_void();
        assert(entries_of(attributes_view(attributes@)) =~= attribute_entries(
            attributes@,
        ));
        let new_element = self.create_element(name, attributes, span, self_closing);
        self.place_element(new_element);
        if !self_closing && !is_void {
            // Expect element's children or closing tag.
            self.current_element = Some(new_element);
        }
    }

    /// Takes a closing tag.
    fn parse_closing_tag(&mut self, name: HtmlTag, span: Span)
        requires
            old(self)@.wf(),
        ensures
            final(self)@.wf(),
            final(self)@ == old(self)@.close(name@, span@),
    {
        if name.is_void() {
            self.error(HtmlParseErrorType::VoidElementEndTag(name), span.start);
            return ;
        }
        match self.current_element {
            Some(current_element) => {
                if name.same(current_element.tag_name(&self.tree)) {
                    let ghost before = self.tree@;
                    self.tree.elements[current_element.index].location.close_tag = Some(span);
                    proof {
                        let element = before.element(current_element);
                        let closed = ElementModel {
                            location: ElementSpanModel {
                                close_tag: Some(span@),
                                ..element.location
                            },
                            ..element
                        };
                        assert(before.elements[current_element.index as int].wf());
                        assert(self.tree@.elements =~= before.elements.update(
                            current_element.index as int,
                            closed,
                        ));
                        before.lemma_with_element(current_element, closed);
                        if before.parent(current_element) is Some {
                            before.lemma_parent_depth(current_element);
                        }
                    }
                    // Go back up one level.
                    self.current_element = current_element.parent(&self.tree);
                } else {
                    self.error(HtmlParseErrorType::UnexpectedCloseTag(name), span.start);
                }
            },
            None => {
                self.error(HtmlParseErrorType::UnexpectedCloseTag(name), span.start);
            },
        }
    }

    /// Adds a node that is no element to the open element, or at the root.
    fn parse_node(&mut self, node: HtmlNode)
        requires
            old(self)@.wf(),
            !(node@ is Element),
        ensures
            final(self)@.wf(),
            final(self)@ == old(self)@.add(node@),
    {
        match self.current_element {
            Some(current) => current.append_node(&mut self.tree, node),
            None => self.tree.append_node(node),
        }
    }

    /// Add a text node to the tree.
    fn parse_text(&mut self, content: String, span: Span)
        requires
            old(self)@.wf(),
        ensures
            final(self)@.wf(),
            final(self)@ == old(self)@.add(NodeModel::Text { content: content@, span: span@ }),
    {
        self.parse_node(HtmlNode::Text(HtmlTextNode { content, span }));
    }

    /// Add a comment node to the tree.
    fn parse_comment(&mut self, content: String, span: Span)
        requires
            old(self)@.wf(),
        ensures
            final(self)@.wf(),
            final(self)@ == old(self)@.add(NodeModel::Comment { content: content@, span: span@ }),
    {
        self.parse_node(HtmlNode::Comment(HtmlComment { content, span }));
    }

    /// Records the element that is still open at the end of the input.
    fn parse_end(&mut self, location: [usize; 2])
        requires
            old(self)@.wf(),
        ensures
            final(self)@.wf(),
            final(self)@ == old(self)@.end(locus_of(location)),
    {
        match self.current_element {
            Some(current) => {
                let tag = current.tag_name(&self.tree).clone();
                self.error(HtmlParseErrorType::UnclosedTag(tag), location);
                self.current_element = None;
            },
            None => {},
        }
    }

    /// Ends the parse: checks for an unclosed tag and hands over the
    /// document with all diagnostics.
    pub fn finish(self, tokenizer_errors: Vec<HtmlParseError>) -> (result: HtmlParseResult)
        requires
            self@.wf(),
        ensures
            result.tree.wf(),
            (result.tree@, errors_view(result.errors@)) == self@.finish(
                errors_view(tokenizer_errors@),
            ),
            self@.built() ==> void_childless(result.tree@),
    {
        let mut parser = self;
        let mut tokenizer_errors = tokenizer_errors;
        // check for unclosed tags.
        match parser.current_element {
            Some(current_open_subtree) => {
                let end = current_open_subtree.get_end(&parser.tree);
                parser.parse_end(end);
            },
            None => {},
        }
        let ghost first = errors_view(tokenizer_errors@);
        let ghost second = errors_view(parser.errors@);
        tokenizer_errors.append(&mut parser.errors);
        assert(errors_view(tokenizer_errors@) =~= first + second);
        HtmlParseResult { tree: parser.tree, errors: tokenizer_errors }
    }
}

impl Parser {
    /// Takes each of `tokens` in turn.
    pub fn receive_all(&mut self, tokens: Vec<HtmlToken>)
        requires
            old(self)@.wf(),
        ensures
            final(self)@.wf(),
            final(self)@ == old(self)@.feed(tokens_view(tokens@)),
            old(self)@.built() ==> final(self)@.built(),
    {
        let ghost all = tokens_view(tokens@);
        assert(all.take(0) =~= Seq::empty());
        for token in iter: tokens
            invariant
                iter.seq() == tokens@,
                all == tokens_view(tokens@),
                self@.wf(),
                self@ == old(self)@.feed(all.take(iter.index() as int)),
                old(self)@.built() ==> self@.built(),
        {
            assert(all.take(iter.index() + 1).drop_last() =~= all.take(iter.index() as int));
            assert(all.take(iter.index() + 1).last() == token@);
            self.receive(token);
        }
        assert(all.take(all.len() as int) =~= all);
    }
}

/// A parse in which the builder takes each token as soon as the tokenizer
/// has made it: the tokenizer with its store, which holds no tokens between
/// steps, and the builder.
pub struct Streaming {
    pub machine: Machine,
    pub builder: BuilderModel,
}

/// The store with its tokens handed on.
pub open spec fn drained(store: StoreModel) -> StoreModel {
    StoreModel { tokens: Seq::empty(), ..store }
}

/// One step of a streaming parse: a step of the tokenizer, after which the
/// builder takes the tokens that the step has made.
pub open spec fn stream_step(streaming: Streaming) -> Streaming {
    let stepped = step_spec(streaming.machine);
    Streaming {
        machine: Machine { store: drained(stepped.store), ..stepped },
        builder: streaming.builder.feed(stepped.store.tokens),
    }
}

/// A streaming parse after `steps` steps.
pub open spec fn stream_run(streaming: Streaming, steps: nat) -> Streaming
    decreases steps,
{
    if steps == 0 {
        streaming
    } else {
        stream_step(stream_run(streaming, (steps - 1) as nat))
    }
}

/// The state in which a streaming parse starts: the builder has taken the
/// tokens that the store held, and the tokenizer is in the data state.
pub open spec fn stream_start(store: StoreModel, stream: QueueModel) -> Streaming {
    Streaming {
        machine: Machine { state: Some(State::Data), store: drained(store), stream },
        builder: BuilderModel::start().feed(store.tokens),
    }
}

/// Whether a streaming parse has seen the end of the input after `steps`
/// steps.
pub open spec fn stream_halts(store: StoreModel, stream: QueueModel, steps: nat) -> bool {
    stream_run(stream_start(store, stream), steps).machine.state is None
}

/// The outcome of a streaming parse: the document that the builder has made
/// when the tokenizer has seen the end of the input, and the diagnostics of
/// both.
pub open spec fn speculative_spec(store: StoreModel, stream: QueueModel) -> (
    DocumentModel,
    Seq<ErrorModel>,
) {
    let steps = choose|steps: nat| stream_halts(store, stream, steps);
    let end = stream_run(stream_start(store, stream), steps);
    end.builder.finish(end.machine.store.errors)
}

/// A streaming parse that has seen the end of the input stays as it is.
pub proof fn lemma_stream_stable(streaming: Streaming, first: nat, later: nat)
    requires
        stream_run(streaming, first).machine.state is None,
        stream_run(streaming, first).machine.store.tokens.len() == 0,
        first <= later,
    ensures
        stream_run(streaming, later) == stream_run(streaming, first),
    decreases later,
{
    if first < later {
        lemma_stream_stable(streaming, first, (later - 1) as nat);
        let end = stream_run(streaming, first);
        assert(end.machine.store.tokens =~= Seq::empty());
        assert(drained(end.machine.store) == end.machine.store);
    }
}

/// After each step of a streaming parse the store holds no tokens.
pub proof fn lemma_stream_drained(streaming: Streaming, steps: nat)
    requires
        streaming.machine.store.tokens.len() == 0,
    ensures
        stream_run(streaming, steps).machine.store.tokens.len() == 0,
{
}

/// However many steps it took to see the end of the input, a streaming
/// parse then has the outcome that `speculative_spec` speaks of.
pub proof fn lemma_stream_halted(store: StoreModel, stream: QueueModel, steps: nat)
    requires
        stream_halts(store, stream, steps),
    ensures
        speculative_spec(store, stream) == ({
            let end = stream_run(stream_start(store, stream), steps);
            end.builder.finish(end.machine.store.errors)
        }),
{
    let chosen = choose|steps: nat| stream_halts(store, stream, steps);
    let start = stream_start(store, stream);
    lemma_stream_drained(start, chosen);
    lemma_stream_drained(start, steps);
    if chosen <= steps {
        lemma_stream_stable(start, chosen, steps);
    } else {
        lemma_stream_stable(start, steps, chosen);
    }
}

/// The parser that builds the document while the tokenizer runs.
pub struct SpeculativeHtmlParser;

impl SpeculativeHtmlParser {
    /// Parses the source that `iterator` reads, the builder taking each
    /// token as the tokenizer makes it. The tokenizer reaches the end of
    /// every source.
    pub fn parse(token_store: TokenStore, iterator: QueueIterator) -> (result: HtmlParseResult)
        requires
            iterator.wf(),
            iterator@.front.len() <= 1,
        ensures
            result.tree.wf(),
            void_childless(result.tree@),
            exists|steps: nat| stream_halts(token_store@, iterator@, steps),
            (result.tree@, errors_view(result.errors@)) == speculative_spec(
                token_store@,
                iterator@,
            ),
    {
        let ghost store = token_store@;
        let ghost stream = iterator@;
        let ghost start = stream_start(store, stream);
        let mut token_store = token_store;
        let mut iterator = iterator;
        let mut parser = Parser::new();
        parser.receive_all(token_store.take_tokens());
        let mut state = State::Data;
        let ghost mut steps: nat = 0;
        loop
            invariant_except_break
                stream_run(start, steps) == (Streaming {
                    machine: Machine {
                        state: Some(state),
                        store: token_store@,
                        stream: iterator@,
                    },
                    builder: parser@,
                }),
            invariant
                iterator.wf(),
                iterator@.front.len() <= 1,
                parser@.wf(),
                parser@.built(),
                token_store@.tokens.len() == 0,
            ensures
                parser@.built(),
                stream_run(start, steps) == (Streaming {
                    machine: Machine { state: None, store: token_store@, stream: iterator@ },
                    builder: parser@,
                }),
            decreases iterator@.len(), rank(state, iterator@),
        {
            let next = step(state, &mut token_store, &mut iterator);
            // The builder takes what the step has made.
            parser.receive_all(token_store.take_tokens());
            proof {
                steps = steps + 1;
            }
            match next {
                Some(s) => {
                    state = s;
                },
                None => {
                    break ;
                },
            }
        }
        proof {
            assert(stream_halts(store, stream, steps));
            lemma_stream_halted(store, stream, steps);
        }
        let errors = token_store.take_errors();
        parser.finish(errors)
    }
}

/// Whether no element with the tag of a void element has a child node.
pub open spec fn void_childless(doc: DocumentModel) -> bool {
    forall|i: int|
        0 <= i < doc.elements.len() && is_void_name((#[trigger] doc.elements[i]).name)
            ==> doc.elements[i].child_nodes.len() == 0
}

impl BuilderModel {
    /// What holds of a builder that started with an empty document and has
    /// taken tokens since: its document is a forest in which no void element
    /// has a child node, and the open element is no void element.
    pub open spec fn built(self) -> bool {
        &&& self.wf()
        &&& void_childless(self.tree)
        &&& self.current matches Some(c) ==> !is_void_name(self.tree.element(c).name)
    }

    /// A token leaves the builder with a document in which no void element
    /// has a child node.
    pub proof fn lemma_receive_built(self, token: TokenModel)
        requires
            self.built(),
            self.receive(token).tree.elements.len() <= usize::MAX,
        ensures
            self.receive(token).built(),
    {
        let after = self.receive(token);
        match token {
            TokenModel::OpeningTag { name, attributes, span, self_closing } => {
                let fresh = ElementModel::new(name);
                let element = ElementModel::parsed(name, entries_of(attributes), span);
                let e = ElementRef { index: self.tree.elements.len() as usize };
                let created = self.tree.create(element);
                lemma_with_all(fresh.attributes, entries_of(attributes));
                self.tree.lemma_create(element);
                assert(created.detach(e) == created);
                assert(void_childless(created)) by {
                    assert forall|i: int|
                        0 <= i < created.elements.len() && is_void_name(
                            (#[trigger] created.elements[i]).name,
                        ) implies created.elements[i].child_nodes.len() == 0 by {
                        if i < self.tree.elements.len() {
                            assert(created.elements[i] == self.tree.elements[i]);
                        }
                    }
                }
                match self.current {
                    Some(p) => {
                        created.lemma_append(p, e);
                        assert(after.tree == created.append(p, e));
                        assert(created.elements[p.index as int] == self.tree.elements[p.index as int]);
                        assert forall|i: int|
                            0 <= i < after.tree.elements.len() && is_void_name(
                                (#[trigger] after.tree.elements[i]).name,
                            ) implies after.tree.elements[i].child_nodes.len() == 0 by {
                            if i != p.index && i != e.index {
                                assert(after.tree.elements[i] == created.elements[i]);
                            }
                        }
                    },
                    None => {
                        created.lemma_detach(e);
                        created.lemma_attach_root(e, created.nodes.len() as int);
                        assert(after.tree.elements == created.elements);
                    },
                }
            },
            TokenModel::ClosingTag { name, span } => {
                if !is_void_name(name) {
                    match self.current {
                        Some(c) => {
                            if self.tree.element(c).name == name {
                                let element = self.tree.element(c);
                                let closed = ElementModel {
                                    location: ElementSpanModel {
                                        close_tag: Some(span),
                                        ..element.location
                                    },
                                    ..element
                                };
                                assert(self.tree.elements[c.index as int].wf());
                                self.tree.lemma_with_element(c, closed);
                                assert forall|i: int|
                                    0 <= i < after.tree.elements.len() && is_void_name(
                                        (#[trigger] after.tree.elements[i]).name,
                                    ) implies after.tree.elements[i].child_nodes.len() == 0 by {
                                    if i != c.index {
                                        assert(after.tree.elements[i] == self.tree.elements[i]);
                                    }
                                }
                                if self.tree.parent(c) is Some {
                                    let p = self.tree.parent(c)->0;
                                    self.tree.lemma_child_position(c);
                                    assert(self.tree.elements[p.index as int].child_nodes.len() > 0);
                                    assert(after.tree.elements[p.index as int].name
                                        == self.tree.elements[p.index as int].name);
                                }
                            }
                        },
                        None => {},
                    }
                }
            },
            TokenModel::Text { content, span } => {
                self.lemma_add_built(NodeModel::Text { content, span });
            },
            TokenModel::Comment { content, span } => {
                self.lemma_add_built(NodeModel::Comment { content, span });
            },
            TokenModel::DocType { root, identifier, force_quirks } => {
                self.tree.lemma_add_root_node(
                    NodeModel::DocType { name: root, identifier, force_quirks },
                );
            },
            TokenModel::CharacterRef { .. } => {},
            TokenModel::EOF { location } => {},
        }
    }

    /// A node that is no element leaves the builder with a document in
    /// which no void element has a child node.
    pub proof fn lemma_add_built(self, node: NodeModel)
        requires
            self.built(),
            !(node is Element),
        ensures
            self.add(node).built(),
    {
        let after = self.add(node);
        match self.current {
            Some(c) => {
                self.tree.lemma_add_node(c, node);
                assert forall|i: int|
                    0 <= i < after.tree.elements.len() && is_void_name(
                        (#[trigger] after.tree.elements[i]).name,
                    ) implies after.tree.elements[i].child_nodes.len() == 0 by {
                    if i != c.index {
                        assert(after.tree.elements[i] == self.tree.elements[i]);
                    }
                }
            },
            None => {
                self.tree.lemma_add_root_node(node);
            },
        }
    }
}

} // verus!
