//! Line highlighting with the `synoptic` crate, and the colours of highlighted tokens.
use vstd::prelude::*;
use crate::textspec::concat_texts;
use synoptic::Highlighter as TokenHighlighter;

verus! {

/// The colour used for a token without a foreground colour (white).
pub const DEFAULT_TOKEN_COLOR: u32 = 0xFFFFFF;

/// The display width of a tab character, in spaces.
pub const TAB_WIDTH: usize = 4;

/// The 0xRRGGBB colour of a token: its foreground colour packed into 24 bits, or white
/// when it has none.
pub fn token_color(foreground: Option<(u8, u8, u8)>) -> (c: u32)
    ensures
        foreground matches Some((r, g, b)) ==> c == r * 0x10000 + g * 0x100 + b,
        foreground is None ==> c == DEFAULT_TOKEN_COLOR,
{
    match foreground {
        Some((r, g, b)) => {
            let c = (r as u32) << 16 | (g as u32) << 8 | (b as u32);
            proof {
                let (r32, g32, b32) = (r as u32, g as u32, b as u32);
                assert(r32 < 256 && g32 < 256 && b32 < 256);
                assert((r32 << 16 | g32 << 8 | b32) == r32 * 0x10000 + g32 * 0x100 + b32) by (bit_vector)
                    requires
                        r32 < 256,
                        g32 < 256,
                        b32 < 256,
                ;
            }
            c
        },
        None => DEFAULT_TOKEN_COLOR,
    }
}

/// `s` with each tab replaced by `w` spaces.
pub open spec fn expand_tabs(s: Seq<char>, w: nat) -> Seq<char>
    decreases s.len(),
{
    if s.len() == 0 {
        Seq::empty()
    } else {
        expand_tabs(s.drop_last(), w) + if s.last() == '\t' {
            Seq::new(w, |i: int| ' ')
        } else {
            seq![s.last()]
        }
    }
}

/// The highlighter of the `synoptic` crate, carried through as an opaque value.
#[verifier::external_type_specification]
#[verifier::external_body]
pub struct ExSynopticHighlighter(TokenHighlighter);

/// The lines that a synoptic highlighter was last run on (none before its first run).
pub uninterp spec fn synoptic_lines(h: TokenHighlighter) -> Seq<Seq<char>>;

/// The tab width that a synoptic highlighter was made with.
pub uninterp spec fn synoptic_tab_width(h: TokenHighlighter) -> nat;

/// The file extension that a synoptic highlighter was made for by `from_extension`; the empty
/// text for one made by `Highlighter::new`, which is what `from_extension` gives for an
/// extension it does not know, the empty one included.
pub uninterp spec fn synoptic_extension(h: TokenHighlighter) -> Seq<char>;

/// The tokens, as text and kind (`None` for plain text), that `Highlighter::line` gives for
/// line `y` of a highlighter made for extension `ext` with tab width `tab_width` and run on
/// `lines` (a function of these alone).
pub uninterp spec fn synoptic_tokens(ext: Seq<char>, tab_width: nat, lines: Seq<Seq<char>>, y: nat) -> Seq<(Seq<char>, Option<Seq<char>>)>;

/// A token as mathematical values.
pub open spec fn token_view(t: (String, Option<String>)) -> (Seq<char>, Option<Seq<char>>) {
    (t.0@, match t.1 {
        Some(k) => Some(k@),
        None => None,
    })
}

/// `synoptic::from_extension`: the highlighter for a file extension, or a plain one for an
/// extension it does not know. Its source returns `Some` for every extension; the
/// highlighter has the given tab width and has not been run yet. Which keywords and
/// delimiters it knows is not stated.
#[verifier::external_body]
fn synoptic_for_extension(ext: &str, tab_width: usize) -> (h: Option<TokenHighlighter>)
    ensures
        h is Some,
        h matches Some(h) ==> synoptic_lines(h) == Seq::<Seq<char>>::empty()
            && synoptic_tab_width(h) == tab_width && synoptic_extension(h) == ext@,
{
    synoptic::from_extension(ext, tab_width)
}

/// `synoptic::Highlighter::new`: a highlighter with no definitions, the given tab width,
/// not run yet; the same as `from_extension` gives for an unknown extension.
#[verifier::external_body]
fn synoptic_new(tab_width: usize) -> (h: TokenHighlighter)
    ensures
        synoptic_lines(h) == Seq::<Seq<char>>::empty(),
        synoptic_tab_width(h) == tab_width,
        synoptic_extension(h) == Seq::<char>::empty(),
{
    TokenHighlighter::new(tab_width)
}

/// `synoptic::Highlighter::run`: tokenises `lines`, which become the lines the highlighter
/// holds; its tab width and definitions stay.
#[verifier::external_body]
fn synoptic_run(h: &mut TokenHighlighter, lines: &Vec<String>)
    ensures
        synoptic_lines(*final(h)) == lines@.map_values(|s: String| s@),
        synoptic_tab_width(*final(h)) == synoptic_tab_width(*old(h)),
        synoptic_extension(*final(h)) == synoptic_extension(*old(h)),
{
    h.run(lines.as_slice())
}

/// `synoptic::Highlighter::line`: the tokens of line `y`, as text and kind, which must be the
/// line it was run with (the call indexes the line table by `y`). They are the name
/// `synoptic_tokens` of the highlighter's extension, tab width and lines; their texts, one
/// after the other, are the line with each tab replaced by tab-width spaces. Where the line
/// is cut into tokens, and the kind of each token, are not stated.
#[verifier::external_body]
fn synoptic_line(h: &TokenHighlighter, y: usize, line: &str) -> (tokens: Vec<(String, Option<String>)>)
    requires
        y < synoptic_lines(*h).len(),
        synoptic_lines(*h)[y as int] == line@,
    ensures
        tokens@.map_values(|t: (String, Option<String>)| token_view(t)) == synoptic_tokens(
            synoptic_extension(*h),
            synoptic_tab_width(*h),
            synoptic_lines(*h),
            y as nat,
        ),
        concat_texts(tokens@.map_values(|t: (String, Option<String>)| t.0@)) == expand_tabs(
            line@,
            synoptic_tab_width(*h),
        ),
{
    h.line(y, line).into_iter().map(|t| match t {
        synoptic::TokOpt::Some(text, kind) => (text, Some(kind)),
        synoptic::TokOpt::None(text) => (text, None),
    }).collect()
}

/// The texts of tokens.
pub open spec fn token_texts(ts: Seq<(Seq<char>, Option<Seq<char>>)>) -> Seq<Seq<char>> {
    ts.map_values(|t: (Seq<char>, Option<Seq<char>>)| t.0)
}

/// Highlights single lines for a language given by file extension.
pub struct Highlighter {
    lang: String,
}

impl Highlighter {
    /// The language (a file extension) that lines are highlighted for.
    pub closed spec fn language(&self) -> Seq<char> {
        self.lang@
    }

    /// A highlighter for plain text.
    pub fn new() -> (h: Self)
        ensures
            h.language() == "plain"@,
    {
        Highlighter { lang: "plain".to_owned() }
    }

    /// Highlights later lines for `lang`.
    pub fn set_language(&mut self, lang: &str)
        ensures
            final(self).language() == lang@,
    {
        self.lang = lang.to_owned();
    }

    /// The tokens of `line`, each with its 0xRRGGBB colour: the texts are synoptic's tokens
    /// of the line for this language, in order (`synoptic_tokens`); synoptic gives a token a
    /// kind but no style, so each has the default colour. The token texts, one after the
    /// other, are the line with each tab expanded to `TAB_WIDTH` spaces.
    pub fn highlight_line(&self, line: &str) -> (tokens: Vec<(u32, String)>)
        ensures
            forall|i: int| 0 <= i < tokens.len() ==> (#[trigger] tokens[i]).0 == DEFAULT_TOKEN_COLOR,
            tokens@.map_values(|t: (u32, String)| t.1@) == token_texts(
                synoptic_tokens(self.language(), TAB_WIDTH as nat, seq![line@], 0),
            ),
            concat_texts(tokens@.map_values(|t: (u32, String)| t.1@)) == expand_tabs(line@, TAB_WIDTH as nat),
    {
        let mut inner = match synoptic_for_extension(self.lang.as_str(), TAB_WIDTH) {
            Some(h) => h,
            None => synoptic_new(TAB_WIDTH),
        };
        let mut lines: Vec<String> = Vec::new();
        lines.push(line.to_owned());
        synoptic_run(&mut inner, &lines);
        proof {
            assert(synoptic_lines(inner) =~= seq![line@]);
        }
        let texts = synoptic_line(&inner, 0, line);
        let ghost text_views = texts@.map_values(|t: (String, Option<String>)| t.0@);
        proof {
            assert(text_views =~= token_texts(texts@.map_values(|t: (String, Option<String>)| token_view(t))));
        }
        let mut tokens: Vec<(u32, String)> = Vec::new();
        let mut i: usize = 0;
        while i < texts.len()
            invariant
                i <= texts.len(),
                text_views == texts@.map_values(|t: (String, Option<String>)| t.0@),
                tokens.len() == i,
                forall|k: int| 0 <= k < i ==> (#[trigger] tokens[k]).0 == DEFAULT_TOKEN_COLOR,
                tokens@.map_values(|t: (u32, String)| t.1@) =~= text_views.take(i as int),
            decreases texts.len() - i,
        {
            let text = texts[i].0.clone();
            tokens.push((token_color(None), text));
            i = i + 1;
            proof {
                assert(tokens@.map_values(|t: (u32, String)| t.1@) =~= text_views.take(i as int));
            }
        }
        proof {
            assert(text_views.take(texts.len() as int) =~= text_views);
        }
        tokens
    }
}

} // verus!
