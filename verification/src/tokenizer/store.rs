//! The tokenizer's store: the text it has gathered and not yet handed on,
//! the attributes of the tag it is in, and the tokens and diagnostics it has
//! produced.
use vstd::prelude::*;
use vstd::string::StringExecFns;
use crate::error::{errors_view, ErrorKindModel, ErrorModel, HtmlParseError, HtmlParseErrorType};
use crate::high_order_iterator::HigherOrderIterator;
use crate::html_node::{locus_of, Locus, Span, SpanModel};
use crate::queue_iterator::QueueIterator;
use crate::tag::HtmlTag;
use crate::text::{all_whitespace, is_all_whitespace, lowercase};
use crate::token::{
    attributes_view,
    opt_view,
    tokens_view,
    AttributeModel,
    AttributeQuoteType,
    DocTypeIdentifier,
    HtmlAttribute,
    HtmlToken,
    TokenModel,
};

verus! {

/// What the tokenizer has recognised and asks the store to hand on. An
/// opening tag says whether it closes itself; a document type brings its
/// root name, its identifier and whether it forces quirks mode.
pub enum Event {
    Text,
    Close,
    Comment,
    OpenerTag(bool),
    DocType(String, Option<DocTypeIdentifier>, bool),
}

/// An event with its strings as sequences of characters.
pub enum EventModel {
    Text,
    Close,
    Comment,
    OpenerTag(bool),
    DocType(Seq<char>, Option<DocTypeIdentifier>, bool),
}

impl View for Event {
    type V = EventModel;

    open spec fn view(&self) -> EventModel {
        match self {
            Event::Text => EventModel::Text,
            Event::Close => EventModel::Close,
            Event::Comment => EventModel::Comment,
            Event::OpenerTag(self_closing) => EventModel::OpenerTag(*self_closing),
            Event::DocType(root, identifier, force_quirks) => EventModel::DocType(
                root@,
                *identifier,
                *force_quirks,
            ),
        }
    }
}

/// What a [`TokenStore`] holds.
pub struct StoreModel {
    /// The tokens handed on so far.
    pub tokens: Seq<TokenModel>,
    /// The diagnostics recorded so far.
    pub errors: Seq<ErrorModel>,
    /// Whether a character was gathered since the last token.
    pub has_data: bool,
    /// The attributes gathered for the tag that is being read.
    pub attrib_store: Seq<AttributeModel>,
    /// The text gathered: the content of a text or comment, or a tag's name.
    pub text: Seq<char>,
    /// The name of the attribute that is being read.
    pub attr_name: Seq<char>,
    /// The value of the attribute that is being read, once it has one.
    pub attr_value: Option<Seq<char>>,
    /// Where the token that is being read started.
    pub loc: Locus,
}

impl StoreModel {
    /// The store before anything was gathered.
    pub open spec fn start() -> StoreModel {
        StoreModel {
            tokens: Seq::empty(),
            errors: Seq::empty(),
            has_data: false,
            attrib_store: Seq::empty(),
            text: Seq::empty(),
            attr_name: Seq::empty(),
            attr_value: None,
            loc: (0, 0),
        }
    }

    /// The store with `ch` added to the gathered text.
    pub open spec fn push(self, ch: char) -> StoreModel {
        StoreModel { has_data: true, text: self.text.push(ch), ..self }
    }

    /// The store with `st` added to the gathered text. This alone does not
    /// count as having gathered a character.
    pub open spec fn push_str(self, st: Seq<char>) -> StoreModel {
        StoreModel { text: self.text + st, ..self }
    }

    /// The store with `ch` added to the name of the attribute.
    pub open spec fn push_attr_name(self, ch: char) -> StoreModel {
        StoreModel { attr_name: self.attr_name.push(ch), ..self }
    }

    /// The store with `ch` added to the value of the attribute, which it
    /// has from then on.
    pub open spec fn push_attr_value(self, ch: char) -> StoreModel {
        StoreModel {
            attr_value: Some(
                match self.attr_value {
                    Some(value) => value.push(ch),
                    None => seq![ch],
                },
            ),
            ..self
        }
    }

    /// The attribute that was being read joins the attributes of the tag,
    /// and the next one starts with no name and no value.
    pub open spec fn collect_attribute(self, quote_type: AttributeQuoteType) -> StoreModel {
        StoreModel {
            attrib_store: self.attrib_store.push(
                AttributeModel { key: self.attr_name, value: self.attr_value, quote_type },
            ),
            attr_name: Seq::empty(),
            attr_value: None,
            ..self
        }
    }

    /// The token that `event` stands for, made of the gathered text and
    /// attributes, with a span from where the token started to `locus`. A
    /// text of white space alone makes no token. The span of a text ends one
    /// column before `locus`.
    pub open spec fn token_for(self, event: EventModel, locus: Locus) -> Option<TokenModel> {
        let span = SpanModel { start: self.loc, end: locus };
        match event {
            EventModel::Text => if all_whitespace(self.text) {
                None
            } else {
                Some(
                    TokenModel::Text {
                        content: self.text,
                        span: SpanModel { start: self.loc, end: (locus.0, (locus.1 - 1) as usize) },
                    },
                )
            },
            EventModel::OpenerTag(self_closing) => Some(
                TokenModel::OpeningTag {
                    name: lowercase(self.text),
                    attributes: self.attrib_store,
                    span,
                    self_closing,
                },
            ),
            EventModel::Close => Some(TokenModel::ClosingTag { name: lowercase(self.text), span }),
            EventModel::Comment => Some(TokenModel::Comment { content: self.text, span }),
            EventModel::DocType(root, identifier, force_quirks) => Some(
                TokenModel::DocType { root, identifier, force_quirks },
            ),
        }
    }

    /// The store after `event` was handed on at `locus`: the gathered text is
    /// drained, an opening tag takes the gathered attributes with it, and
    /// the token, where there is one, joins the tokens.
    pub open spec fn emit(self, event: EventModel, locus: Locus) -> StoreModel {
        let drained = StoreModel { text: Seq::empty(), has_data: false, ..self };
        match self.token_for(event, locus) {
            None => drained,
            Some(token) => StoreModel {
                tokens: self.tokens.push(token),
                attrib_store: if event is OpenerTag {
                    Seq::empty()
                } else {
                    self.attrib_store
                },
                ..drained
            },
        }
    }

    /// The store with one more diagnostic, recorded at `locus`.
    pub open spec fn error(self, kind: ErrorKindModel, locus: Locus) -> StoreModel {
        StoreModel { errors: self.errors.push(ErrorModel { kind, location: locus }), ..self }
    }

    /// The token that is being read starts one column before `locus`.
    pub open spec fn set_start(self, locus: Locus) -> StoreModel {
        StoreModel { loc: (locus.0, (locus.1 - 1) as usize), ..self }
    }

    /// The store without the gathered text and without the attribute that
    /// was being read.
    pub open spec fn clear(self) -> StoreModel {
        StoreModel { text: Seq::empty(), attr_name: Seq::empty(), attr_value: None, ..self }
    }

    /// The store with one more token.
    pub open spec fn push_token(self, token: TokenModel) -> StoreModel {
        StoreModel { tokens: self.tokens.push(token), ..self }
    }
}

/// What the tokenizer has gathered and produced.
pub struct TokenStore {
    pub tokens: Vec<HtmlToken>,
    pub errors: Vec<HtmlParseError>,
    has_data: bool,
    attrib_store: Vec<HtmlAttribute>,
    pub cache: (String, String, Option<String>),
    loc: [usize; 2],
}

impl View for TokenStore {
    type V = StoreModel;

    closed spec fn view(&self) -> StoreModel {
        StoreModel {
            tokens: tokens_view(self.tokens@),
            errors: errors_view(self.errors@),
            has_data: self.has_data,
            attrib_store: attributes_view(self.attrib_store@),
            text: self.cache.0@,
            attr_name: self.cache.1@,
            attr_value: opt_view(self.cache.2),
            loc: locus_of(self.loc),
        }
    }
}

impl TokenStore {
    /// Create a new tokenizer.
    pub fn new() -> (store: TokenStore)
        ensures
            store@ == StoreModel::start(),
    {
        let store = TokenStore {
            tokens: Vec::new(),
            errors: Vec::new(),
            attrib_store: Vec::new(),
            has_data: false,
            loc: [0, 0],
            cache: (String::new(), String::new(), None),
        };
        assert(store@.tokens =~= Seq::empty());
        assert(store@.errors =~= Seq::empty());
        assert(store@.attrib_store =~= Seq::empty());
        store
    }

    /// Store a character in the cache.
    pub fn push(&mut self, ch: char)
        ensures
            final(self)@ == old(self)@.push(ch),
    {
        if !self.has_data {
            self.has_data = true
        }
        self.cache.0.push(ch);
    }

    /// Store a string in the cache.
    pub fn push_str(&mut self, st: &str)
        ensures
            final(self)@ == old(self)@.push_str(st@),
    {
        self.cache.0.append(st);
    }

    /// Push a character into an attribute name.
    pub fn push_attr_name(&mut self, ch: char)
        ensures
            final(self)@ == old(self)@.push_attr_name(ch),
    {
        self.cache.1.push(ch);
    }

    /// Push a character into the attribute value, if it exists, or create a
    /// new attribute value to push into if it doesn't.
    pub fn push_attr_value(&mut self, ch: char)
        ensures
            final(self)@ == old(self)@.push_attr_value(ch),
    {
        let mut string = match self.cache.2.take() {
            Some(string) => string,
            None => String::new(),
        };
        string.push(ch);
        self.cache.2 = Some(string);
        assert(seq![ch] =~= Seq::<char>::empty().push(ch));
    }

    /// Adds the attribute that was being read to those of the tag.
    pub fn collect_attribute(&mut self, quote_type: AttributeQuoteType)
        ensures
            final(self)@ == old(self)@.collect_attribute(quote_type),
    {
        let mut key = String::new();
        std::mem::swap(&mut key, &mut self.cache.1);
        let value = self.cache.2.take();
        let attribute = HtmlAttribute { key, value, quote_type };
        let ghost before = self.attrib_store@;
        self.attrib_store.push(attribute);
        assert(attributes_view(self.attrib_store@) =~= attributes_view(before).push(attribute@));
    }

    /// Push a token to the token list.
    pub fn emit(&mut self, event: Event, iterator: &QueueIterator)
        requires
            iterator.wf(),
        ensures
            final(self)@ == old(self)@.emit(event@, iterator@.locus()),
    {
        let mut content = String::new();
        std::mem::swap(&mut content, &mut self.cache.0);
        self.has_data = false;
        proof {
            iterator.lemma_wf();
        }
        let mut span = Span::over(self.loc, iterator.inner().locus());
        let token = match event {
            Event::Text => {
                // Ignore empty text nodes.
                if is_all_whitespace(content.as_str()) {
                    return ;
                }
                span.end[1] = span.end[1] - 1;
                HtmlToken::Text { content, span }
            },
            Event::OpenerTag(self_closing) => {
                let mut attributes: Vec<HtmlAttribute> = Vec::new();
                std::mem::swap(&mut attributes, &mut self.attrib_store);
                assert(attributes_view(self.attrib_store@) =~= Seq::empty());
                HtmlToken::OpeningTag { name: HtmlTag::new(content), attributes, span, self_closing }
            },
            Event::Close => HtmlToken::ClosingTag { name: HtmlTag::new(content), span },
            Event::Comment => HtmlToken::Comment { content, span },
            Event::DocType(root, identifier, force_quirks) => HtmlToken::DocType {
                root,
                identifier,
                force_quirks,
            },
        };
        let ghost before = self.tokens@;
        self.tokens.push(token);
        assert(tokens_view(self.tokens@) =~= tokens_view(before).push(token@));
    }

    /// Adds an error.
    pub fn error(&mut self, error_type: HtmlParseErrorType, iterator: &QueueIterator)
        requires
            iterator.wf(),
        ensures
            final(self)@ == old(self)@.error(error_type@, iterator@.locus()),
    {
        let location = iterator.inner().locus();
        let ghost before = self.errors@;
        let error = HtmlParseError { error_type, location };
        self.errors.push(error);
        assert(errors_view(self.errors@) =~= errors_view(before).push(error@));
    }

    /// Sets the position of the iterator to the start of something.
    pub fn set_start(&mut self, iterator: &QueueIterator)
        requires
            iterator.wf(),
        ensures
            final(self)@ == old(self)@.set_start(iterator@.locus()),
    {
        proof {
            iterator.lemma_wf();
        }
        self.loc = iterator.inner().locus();
        self.loc[1] = self.loc[1] - 1;
    }

    /// Checks if the store contains data in its cache.
    pub fn empty(&self) -> (r: bool)
        ensures
            r == !self@.has_data,
    {
        !self.has_data
    }

    /// Removes data from the store cache.
    pub fn clear(&mut self)
        ensures
            final(self)@ == old(self)@.clear(),
    {
        self.cache.0 = String::new();
        self.cache.1 = String::new();
        self.cache.2 = None;
    }

    /// Whether the name of the attribute that is being read is empty.
    pub fn attr_name_is_empty(&self) -> (r: bool)
        ensures
            r == (self@.attr_name.len() == 0),
    {
        self.cache.1.as_str().is_empty()
    }

    /// Hands over the tokens produced so far and leaves none behind.
    pub fn take_tokens(&mut self) -> (tokens: Vec<HtmlToken>)
        ensures
            tokens_view(tokens@) == old(self)@.tokens,
            final(self)@ == (StoreModel { tokens: Seq::empty(), ..old(self)@ }),
    {
        let mut tokens: Vec<HtmlToken> = Vec::new();
        std::mem::swap(&mut tokens, &mut self.tokens);
        assert(tokens_view(self.tokens@) =~= Seq::empty());
        tokens
    }

    /// Hands over the diagnostics recorded so far and leaves none behind.
    pub fn take_errors(&mut self) -> (errors: Vec<HtmlParseError>)
        ensures
            errors_view(errors@) == old(self)@.errors,
            final(self)@ == (StoreModel { errors: Seq::empty(), ..old(self)@ }),
    {
        let mut errors: Vec<HtmlParseError> = Vec::new();
        std::mem::swap(&mut errors, &mut self.errors);
        assert(errors_view(self.errors@) =~= Seq::empty());
        errors
    }

    /// Adds the token that marks the end of the input.
    pub fn push_eof(&mut self, iterator: &QueueIterator)
        requires
            iterator.wf(),
        ensures
            final(self)@ == old(self)@.push_token(TokenModel::EOF { location: iterator@.locus() }),
    {
        let location = iterator.inner().locus();
        let ghost before = self.tokens@;
        let token = HtmlToken::EOF { location };
        self.tokens.push(token);
        assert(tokens_view(self.tokens@) =~= tokens_view(before).push(token@));
    }
}

} // verus!
