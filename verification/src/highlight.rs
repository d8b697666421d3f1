//! Parsing and syntax highlighting of a buffer with tree-sitter, reparsing only when the
//! buffer's version has changed.
use vstd::prelude::*;
use vstd::utf8::encode_utf8;
use std::sync::Arc;
use tree_sitter::{Language, Parser, Tree};
use tree_sitter_highlight::{HighlightConfiguration, HighlightEvent, Highlighter};
use crate::buffer::EditorBuffer;
use crate::rope::rope_to_string;

verus! {

/// The tree-sitter parser.
#[verifier::external_type_specification]
#[verifier::external_body]
pub struct ExParser(Parser);

/// A tree-sitter syntax tree.
#[verifier::external_type_specification]
#[verifier::external_body]
pub struct ExTree(Tree);

/// A tree-sitter grammar.
#[verifier::external_type_specification]
#[verifier::external_body]
pub struct ExLanguage(Language);

/// A tree-sitter-highlight configuration (grammar and queries).
#[verifier::external_type_specification]
#[verifier::external_body]
pub struct ExHighlightConfiguration(HighlightConfiguration);

/// The grammar that a parser holds, if any.
pub uninterp spec fn parser_language(p: Parser) -> Option<Language>;

/// Whether a parser accepts `language`: the grammar's ABI version lies in the range this
/// tree-sitter supports and the grammar can be parsed with (a property of the grammar alone).
pub uninterp spec fn parser_accepts(language: Language) -> bool;

/// The syntax tree that a parser with `language` makes of `source` (a function of the grammar
/// and the bytes alone).
pub uninterp spec fn parse_tree(language: Language, source: Seq<u8>) -> Tree;

/// What `highlight_events` gives for a configuration and source bytes (a function of the two
/// alone).
pub uninterp spec fn highlight_result(config: HighlightConfiguration, source: Seq<u8>) -> Option<Seq<Option<SyntaxEvent>>>;

/// `Parser::new`: a parser without a grammar.
#[verifier::external_body]
fn parser_new() -> (p: Parser)
    ensures
        parser_language(p) is None,
{
    Parser::new()
}

/// `Parser::set_language`: whether the parser accepted the grammar (`parser_accepts`); then
/// it holds that grammar, and on failure the parser is left as it was. Which grammars are
/// accepted (by ABI version and parseability) is not stated.
#[verifier::external_body]
fn parser_set_language(parser: &mut Parser, language: &Language) -> (ok: bool)
    ensures
        ok == parser_accepts(*language),
        ok ==> parser_language(*final(parser)) == Some(*language),
        !ok ==> *final(parser) == *old(parser),
{
    parser.set_language(language).is_ok()
}

/// `Parser::parse` without an old tree: the syntax tree of `source` under the parser's
/// grammar (`parse_tree`), or `None` when the parser has no grammar, as its documentation
/// says. The parser keeps its grammar. The tree itself is not described.
#[verifier::external_body]
fn parser_parse(parser: &mut Parser, source: &[u8]) -> (r: Option<Tree>)
    ensures
        parser_language(*final(parser)) == parser_language(*old(parser)),
        r == match parser_language(*old(parser)) {
            Some(l) => Some(parse_tree(l, source@)),
            None => None,
        },
{
    parser.parse(source, None)
}

/// One highlight event: a span of source, or the start or end of a highlight.
#[derive(Debug, Clone, Copy, PartialEq, Eq)]
pub enum SyntaxEvent {
    /// The source bytes `start..end`.
    Source { start: usize, end: usize },
    /// The start of a highlight, by the index of its name in the configuration.
    HighlightStart(usize),
    /// The end of the innermost highlight.
    HighlightEnd,
}

/// `Highlighter::highlight` over `source` with a fresh highlighter, no cancellation and no
/// injections: the events in order, `None` in place of an event that failed; the whole
/// result is `None` when highlighting could not start. The result is the name
/// `highlight_result` of the configuration and the bytes; the events are not described.
#[verifier::external_body]
fn highlight_events(config: &HighlightConfiguration, source: &[u8]) -> (r: Option<Vec<Option<SyntaxEvent>>>)
    ensures
        (match r {
            Some(v) => Some(v@),
            None => None,
        }) == highlight_result(*config, source@),
{
    let mut highlighter = Highlighter::new();
    let events = highlighter.highlight(config, source, None, None, |_| None).ok()?;
    Some(events.map(|ev| match ev {
        Ok(HighlightEvent::Source { start, end }) => Some(SyntaxEvent::Source { start, end }),
        Ok(HighlightEvent::HighlightStart(h)) => Some(SyntaxEvent::HighlightStart(h.0)),
        Ok(HighlightEvent::HighlightEnd) => Some(SyntaxEvent::HighlightEnd),
        Err(_) => None,
    }).collect())
}

/// The byte offset that each event is reported at: a source span at its start; the start
/// or end of a highlight at the end of the last span before it (0 before any span).
/// Failed events are skipped.
pub open spec fn event_offsets(events: Seq<Option<SyntaxEvent>>, pos: usize) -> Seq<(usize, SyntaxEvent)>
    decreases events.len(),
{
    if events.len() == 0 {
        Seq::empty()
    } else {
        match events[0] {
            None => event_offsets(events.drop_first(), pos),
            Some(SyntaxEvent::Source { start, end }) => seq![(start, events[0]->0)] + event_offsets(
                events.drop_first(),
                end,
            ),
            Some(ev) => seq![(pos, ev)] + event_offsets(events.drop_first(), pos),
        }
    }
}

/// What a highlighter holds that the contracts speak of.
pub struct HighlighterView {
    pub has_tree: bool,
    pub last_version: u64,
    pub has_config: bool,
    pub has_language: bool,
}

/// Parsing and highlighting state for one buffer.
pub struct SyntaxHighlighter {
    parser: Parser,
    tree: Option<Tree>,
    /// The buffer version that was last parsed.
    last_version: u64,
    /// The highlight configuration, if any.
    config: Option<Arc<HighlightConfiguration>>,
    /// The grammar used for parsing, if any.
    language: Option<Language>,
}

impl View for SyntaxHighlighter {
    type V = HighlighterView;

    closed spec fn view(&self) -> HighlighterView {
        HighlighterView {
            has_tree: self.tree is Some,
            last_version: self.last_version,
            has_config: self.config is Some,
            has_language: parser_language(self.parser) is Some,
        }
    }
}

impl SyntaxHighlighter {
    /// The current tree, as a value.
    pub closed spec fn tree_spec(&self) -> Option<Tree> {
        self.tree
    }

    /// The grammar that parsing uses, if any.
    pub closed spec fn language_spec(&self) -> Option<Language> {
        parser_language(self.parser)
    }

    /// The highlight configuration, if any.
    pub closed spec fn config_spec(&self) -> Option<HighlightConfiguration> {
        match self.config {
            Some(c) => Some(*c),
            None => None,
        }
    }

    /// A highlighter for `language`; `None` when the parser rejects the grammar.
    pub fn new(language: Language) -> (h: Option<Self>)
        ensures
            h is Some <==> parser_accepts(language),
            h matches Some(h) ==> h@ == (HighlighterView {
                has_tree: false,
                last_version: 0,
                has_config: false,
                has_language: true,
            }),
            h matches Some(h) ==> h.language_spec() == Some(language) && h.tree_spec() is None
                && h.config_spec() is None,
    {
        let mut parser = parser_new();
        if !parser_set_language(&mut parser, &language) {
            return None;
        }
        Some(SyntaxHighlighter {
            parser,
            tree: None,
            last_version: 0,
            config: None,
            language: Some(language),
        })
    }

    /// A highlighter without a grammar (see `set_language`).
    pub fn empty() -> (h: Self)
        ensures
            h@ == (HighlighterView {
                has_tree: false,
                last_version: 0,
                has_config: false,
                has_language: false,
            }),
            h.language_spec() is None && h.tree_spec() is None && h.config_spec() is None,
    {
        SyntaxHighlighter {
            parser: parser_new(),
            tree: None,
            last_version: 0,
            config: None,
            language: None,
        }
    }

    /// Sets or changes the grammar; the tree is dropped and the parsed version reset.
    /// When the parser rejects the grammar, nothing changes.
    pub fn set_language(&mut self, language: Language) -> (r: Result<(), &'static str>)
        ensures
            r is Ok <==> parser_accepts(language),
            r is Ok ==> final(self)@ == (HighlighterView {
                has_tree: false,
                last_version: 0,
                has_language: true,
                ..old(self)@
            }),
            r is Ok ==> final(self).language_spec() == Some(language) && final(self).tree_spec() is None
                && final(self).config_spec() == old(self).config_spec(),
            r is Err ==> final(self)@ == old(self)@ && final(self).language_spec() == old(self).language_spec()
                && final(self).tree_spec() == old(self).tree_spec() && final(self).config_spec() == old(
                self,
            ).config_spec(),
    {
        if !parser_set_language(&mut self.parser, &language) {
            return Err("Failed to set language");
        }
        self.language = Some(language);
        self.tree = None;
        self.last_version = 0;
        Ok(())
    }

    /// Sets the highlight configuration.
    pub fn set_highlight_config(&mut self, config: HighlightConfiguration)
        ensures
            final(self)@ == (HighlighterView { has_config: true, ..old(self)@ }),
            final(self).config_spec() == Some(config),
            final(self).language_spec() == old(self).language_spec(),
            final(self).tree_spec() == old(self).tree_spec(),
    {
        self.config = Some(Arc::new(config));
    }

    /// Brings the tree up to date with the buffer: a tree of the same version is kept,
    /// otherwise the buffer's UTF-8 text is parsed anew with the grammar (`parse_tree`).
    /// Returns the tree, or `None` when the parser could not parse (it has no grammar); then
    /// no tree is kept.
    pub fn parse(&mut self, buf: &EditorBuffer) -> (r: Option<&Tree>)
        ensures
            !(old(self)@.has_tree && old(self)@.last_version == buf@.version) ==> final(self).tree_spec()
                == match old(self).language_spec() {
                Some(l) => Some(parse_tree(l, encode_utf8(buf@.text))),
                None => None,
            },
            final(self).language_spec() == old(self).language_spec(),
            final(self).config_spec() == old(self).config_spec(),
            old(self)@.has_tree && old(self)@.last_version == buf@.version ==> final(self).tree_spec()
                == old(self).tree_spec() && final(self)@ == old(self)@,
            r is Some <==> final(self)@.has_tree,
            r matches Some(t) ==> final(self).tree_spec() == Some(*t),
            final(self)@.has_tree ==> final(self)@.last_version == buf@.version,
            !final(self)@.has_tree ==> final(self)@.last_version == old(self)@.last_version,
            final(self)@.has_config == old(self)@.has_config,
            final(self)@.has_language == old(self)@.has_language,
    {
        let version = buf.version();
        let keep = match &self.tree {
            Some(_) => self.last_version == version,
            None => false,
        };
        if !keep {
            let source = rope_to_string(buf.rope());
            let new_tree = parser_parse(&mut self.parser, source.as_str().as_bytes());
            match new_tree {
                Some(t) => {
                    self.tree = Some(t);
                    self.last_version = version;
                },
                None => {
                    self.tree = None;
                },
            }
        }
        self.tree.as_ref()
    }

    /// Parses when there is no tree or the buffer's version differs from the parsed one,
    /// and returns the tree; `None` when there is still no tree (the parser has no grammar).
    pub fn ensure_parsed(&mut self, buf: &EditorBuffer) -> (r: Option<&Tree>)
        ensures
            old(self)@.has_tree && old(self)@.last_version == buf@.version ==> final(self).tree_spec()
                == old(self).tree_spec() && final(self)@ == old(self)@,
            r is Some <==> final(self)@.has_tree,
            r matches Some(t) ==> final(self).tree_spec() == Some(*t),
            r is None ==> final(self).tree_spec() is None,
            !(old(self)@.has_tree && old(self)@.last_version == buf@.version) ==> final(self).tree_spec()
                == match old(self).language_spec() {
                Some(l) => Some(parse_tree(l, encode_utf8(buf@.text))),
                None => None,
            },
            final(self).language_spec() == old(self).language_spec(),
            final(self).config_spec() == old(self).config_spec(),
            final(self)@.has_tree ==> final(self)@.last_version == buf@.version,
            !final(self)@.has_tree ==> final(self)@.last_version == old(self)@.last_version,
            final(self)@.has_config == old(self)@.has_config,
            final(self)@.has_language == old(self)@.has_language,
    {
        let stale = match &self.tree {
            Some(_) => self.last_version != buf.version(),
            None => true,
        };
        if stale {
            self.parse(buf);
        }
        self.tree.as_ref()
    }

    /// The current tree, if any.
    pub fn tree(&self) -> (r: Option<&Tree>)
        ensures
            r is Some <==> self@.has_tree,
            r matches Some(t) ==> self.tree_spec() == Some(*t),
    {
        self.tree.as_ref()
    }

    /// Highlights the buffer's text: the events, each at a byte offset (see `event_offsets`).
    /// Empty without a configuration or a tree; `None` when the highlighter fails to start.
    pub fn highlight(&self, buf: &EditorBuffer) -> (r: Option<Vec<(usize, SyntaxEvent)>>)
        ensures
            !(self@.has_config && self@.has_tree) ==> (r matches Some(v) && v@.len() == 0),
            r matches Some(v) ==> exists|events: Seq<Option<SyntaxEvent>>| v@ == #[trigger] event_offsets(events, 0),
            self@.has_tree ==> (self.config_spec() matches Some(c) ==> (match r {
                Some(v) => Some(v@),
                None => None,
            }) == highlight_outcome(highlight_result(c, encode_utf8(buf@.text)))),
    {
        match (&self.config, &self.tree) {
            (Some(config), Some(_tree)) => {
                let source = rope_to_string(buf.rope());
                let events = match highlight_events(config, source.as_str().as_bytes()) {
                    Some(events) => events,
                    None => {
                        return None;
                    },
                };
                let v = offsets_of_events(&events);
                assert(v@ == event_offsets(events@, 0));
                Some(v)
            },
            _ => {
                let v: Vec<(usize, SyntaxEvent)> = Vec::new();
                assert(v@ =~= event_offsets(Seq::<Option<SyntaxEvent>>::empty(), 0));
                Some(v)
            },
        }
    }
}

/// The outcome of highlighting: the events with their byte offsets, or `None` when
/// highlighting could not start.
pub open spec fn highlight_outcome(events: Option<Seq<Option<SyntaxEvent>>>) -> Option<Seq<(usize, SyntaxEvent)>> {
    match events {
        Some(e) => Some(event_offsets(e, 0)),
        None => None,
    }
}

/// The events with their byte offsets (see `event_offsets`).
pub fn offsets_of_events(events: &Vec<Option<SyntaxEvent>>) -> (r: Vec<(usize, SyntaxEvent)>)
    ensures
        r@ == event_offsets(events@, 0),
{
    let mut out: Vec<(usize, SyntaxEvent)> = Vec::new();
    let mut pos: usize = 0;
    let mut i: usize = 0;
    proof {
        assert(events@.skip(0) =~= events@);
        assert(out@ + event_offsets(events@, 0) =~= event_offsets(events@, 0));
    }
    while i < events.len()
        invariant
            0 <= i <= events@.len(),
            out@ + event_offsets(events@.skip(i as int), pos) == event_offsets(events@, 0),
        decreases events@.len() - i,
    {
        proof {
            assert(events@.skip(i as int)[0] == events@[i as int]);
            assert(events@.skip(i as int).drop_first() =~= events@.skip(i as int + 1));
        }
        match events[i] {
            None => {},
            Some(SyntaxEvent::Source { start, end }) => {
                out.push((start, SyntaxEvent::Source { start, end }));
                pos = end;
            },
            Some(ev) => {
                out.push((pos, ev));
            },
        }
        i = i + 1;
    }
    proof {
        assert(events@.skip(events@.len() as int) =~= Seq::<Option<SyntaxEvent>>::empty());
        assert(out@ + Seq::<(usize, SyntaxEvent)>::empty() =~= out@);
    }
    out
}

} // verus!
