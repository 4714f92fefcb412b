//! Syntax highlighting sessions over the `syntect` grammar engine.
//!
//! All trust in the engine is concentrated here: the engine's types are
//! declared opaquely, and each call the library makes goes through one
//! wrapper whose contract states only what the engine's source shows.
//! Highlighting a line yields styled runs whose concatenation is exactly
//! the input line; which runs and which styles come back is up to the
//! grammar and theme and is never assumed.

use vstd::prelude::*;
use crate::style::RawHighlightStyle;
use crate::style::StyleAttributes;
use crate::style::StyledRun;
use crate::resolver::chars_eq;
use crate::style::map_raw_style;
use crate::style::runs_text;
use crate::style::lemma_runs_text_push;
use crate::textutil::chars_of;
use crate::textutil::string_of;

verus! {

#[verifier::external_type_specification]
#[verifier::external_body]
pub struct ExSyntaxSet(syntect::parsing::SyntaxSet);

#[verifier::external_type_specification]
#[verifier::external_body]
pub struct ExSyntaxReference(syntect::parsing::SyntaxReference);

#[verifier::external_type_specification]
#[verifier::external_body]
pub struct ExThemeSet(syntect::highlighting::ThemeSet);

#[verifier::external_type_specification]
#[verifier::external_body]
pub struct ExTheme(syntect::highlighting::Theme);

#[verifier::external_type_specification]
#[verifier::external_body]
pub struct ExHighlightLines<'a>(syntect::easy::HighlightLines<'a>);

#[verifier::external_type_specification]
#[verifier::external_body]
pub struct ExSyntectError(syntect::Error);

/// The failure of the grammar engine on one line: the only error the
/// rendering core can report. Carries the offending line.
#[derive(Debug)]
pub struct HighlightError {
    pub line: String,
}

impl HighlightError {
    /// A short description of the failure, naming the offending line.
    pub fn message(&self) -> String {
        let mut m = String::new();
        m.append("failed to highlight line: ");
        m.append(self.line.as_str());
        m
    }
}

/// One raw styled run as the grammar engine reports it.
pub struct RawRun {
    pub style: RawHighlightStyle,
    pub text: String,
}

/// Relies on `SyntaxSet::load_defaults_newlines`: loads the bundled
/// grammar set. Nothing is assumed about its contents.
#[verifier::external_body]
pub(crate) fn load_syntax_set() -> syntect::parsing::SyntaxSet {
    syntect::parsing::SyntaxSet::load_defaults_newlines()
}

/// Relies on `ThemeSet::load_defaults`: loads the bundled themes. Nothing
/// is assumed about its contents.
#[verifier::external_body]
pub(crate) fn load_theme_set() -> syntect::highlighting::ThemeSet {
    syntect::highlighting::ThemeSet::load_defaults()
}

/// Relies on `SyntaxSet::find_syntax_by_token`: looks a grammar up by
/// extension or name. Whether a grammar is found depends on the loaded
/// set, so nothing is assumed about the result.
#[verifier::external_body]
pub(crate) fn find_syntax_token<'a>(
    set: &'a syntect::parsing::SyntaxSet,
    token: &str,
) -> Option<&'a syntect::parsing::SyntaxReference> {
    set.find_syntax_by_token(token)
}

/// Relies on the `themes` map of `ThemeSet`: looks a theme up by name.
/// Whether the theme is present depends on the loaded set, so nothing is
/// assumed about the result.
#[verifier::external_body]
pub(crate) fn theme_lookup<'a>(
    themes: &'a syntect::highlighting::ThemeSet,
    name: &str,
) -> Option<&'a syntect::highlighting::Theme> {
    themes.themes.get(name)
}

/// Relies on `Theme::default`: an empty theme, used as a last resort when
/// the named theme is missing from the loaded set.
#[verifier::external_body]
pub(crate) fn default_theme() -> syntect::highlighting::Theme {
    syntect::highlighting::Theme::default()
}

/// Relies on `HighlightLines::new`: starts a stateful highlighting run for
/// one region, with the given grammar and theme.
#[verifier::external_body]
pub(crate) fn new_highlight_lines<'a>(
    syntax: &syntect::parsing::SyntaxReference,
    theme: &'a syntect::highlighting::Theme,
) -> syntect::easy::HighlightLines<'a> {
    syntect::easy::HighlightLines::new(syntax, theme)
}

/// Relies on `HighlightLines::highlight_line`: splits one line into styled
/// runs. Nothing is assumed of the result — the session checks for itself
/// that the returned runs cover the line, and falls back when they do not.
#[verifier::external_body]
pub(crate) fn highlight_line_raw(
    h: &mut syntect::easy::HighlightLines<'_>,
    set: &syntect::parsing::SyntaxSet,
    line: &str,
) -> Result<Vec<RawRun>, syntect::Error> {
    match h.highlight_line(line, set) {
        Ok(regions) => Ok(regions.into_iter().map(|(st, t)| RawRun {
            style: RawHighlightStyle {
                red: st.foreground.r, green: st.foreground.g, blue: st.foreground.b,
                font_bits: st.font_style.bits(),
            },
            text: t.to_string(),
        }).collect()),
        Err(e) => Err(e),
    }
}

/// A highlighting session for one contiguous region of text. Highlighting
/// is stateful across the lines of a region (multi-line constructs), so a
/// fresh session is started for each region. A session without a grammar
/// falls back to no-highlight output: the whole line as one plain run.
pub struct HighlightSession<'a> {
    set: &'a syntect::parsing::SyntaxSet,
    inner: Option<syntect::easy::HighlightLines<'a>>,
}

impl<'a> HighlightSession<'a> {
    /// Whether this session has no grammar and highlights to plain runs.
    pub closed spec fn is_plain(self) -> bool {
        self.inner is None
    }

    /// Start a session for one region: with the given grammar, or in
    /// plain fallback mode when no grammar was found for the region's key.
    pub fn start(
        set: &'a syntect::parsing::SyntaxSet,
        syntax: Option<&'a syntect::parsing::SyntaxReference>,
        theme: &'a syntect::highlighting::Theme,
    ) -> (s: HighlightSession<'a>)
        ensures
            s.is_plain() == (syntax is None),
    {
        match syntax {
            Option::Some(sr) => HighlightSession {
                set,
                inner: Option::Some(new_highlight_lines(sr, theme)),
            },
            Option::None => HighlightSession { set, inner: Option::None },
        }
    }

    /// Highlight one line of the session's region into styled runs whose
    /// concatenation is exactly the line. Should the engine's runs not
    /// cover the line, or without a grammar, the line comes back as a
    /// single run with default styling; the worst case of a misbehaving
    /// grammar is missing coloring, never lost or altered text.
    pub fn highlight_line_runs(&mut self, line: &Vec<char>) -> (r: Result<
        Vec<StyledRun>,
        HighlightError,
    >)
        ensures
            r matches Ok(runs) ==> runs_text(runs@) == line@,
            r matches Err(e) ==> e.line@ == line@,
            old(self).is_plain() ==> final (self).is_plain() && r is Ok,
            old(self).is_plain() ==> (r matches Ok(runs) ==> runs@.len() == 1 && runs@[0].style
                == crate::style::spec_plain_style()),
    {
        let text = string_of(line);
        match &mut self.inner {
            Option::Some(h) => {
                match highlight_line_raw(h, self.set, text.as_str()) {
                    Ok(raw) => {
                        let mut runs: Vec<StyledRun> = Vec::new();
                        let mut acc: Vec<char> = Vec::new();
                        let mut i: usize = 0;
                        proof {
                            assert(runs_text(runs@) =~= acc@);
                        }
                        while i < raw.len()
                            invariant
                                i <= raw.len(),
                                runs_text(runs@) == acc@,
                            decreases raw.len() - i,
                        {
                            let ghost prev_runs = runs@;
                            let ghost prev_acc = acc@;
                            let rr = &raw[i];
                            let mut tcs = chars_of(rr.text.as_str());
                            acc.append(&mut tcs);
                            runs.push(StyledRun { text: rr.text.clone(), style: map_raw_style(&rr.style) });
                            proof {
                                lemma_runs_text_push(prev_runs, runs@.last());
                                assert(acc@ =~= prev_acc + rr.text@);
                            }
                            i += 1;
                        }
                        if chars_eq(&acc, line) {
                            Ok(runs)
                        } else {
                            // the engine's runs do not cover the line: plain fallback
                            let mut runs: Vec<StyledRun> = Vec::new();
                            runs.push(StyledRun { text, style: StyleAttributes::plain() });
                            proof {
                                assert(runs@.drop_first() =~= Seq::<StyledRun>::empty());
                                assert(runs_text(Seq::<StyledRun>::empty()) == Seq::<char>::empty());
                                assert(runs@[0].text@ == line@);
                                assert(runs_text(runs@) =~= line@);
                            }
                            Ok(runs)
                        }
                    },
                    Err(_) => Err(HighlightError { line: text }),
                }
            },
            Option::None => {
                let mut runs: Vec<StyledRun> = Vec::new();
                runs.push(StyledRun { text, style: StyleAttributes::plain() });
                proof {
                    assert(runs@.drop_first() =~= Seq::<StyledRun>::empty());
                    assert(runs_text(Seq::<StyledRun>::empty()) == Seq::<char>::empty());
                    assert(runs@[0].text@ == line@);
                    assert(runs_text(runs@) =~= line@);
                }
                Ok(runs)
            },
        }
    }
}

} // verus!
