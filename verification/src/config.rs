//! Store-level configuration, kept as `config.yaml` in the store directory:
//! a single optional default author. Values that would read as null, and
//! values already wrapped in quotes, are written single-quoted so that
//! rendering and parsing are inverse to each other.
use crate::chars::lemma_quoting_roundtrip;
use crate::chars::line_has_no_newline;
use crate::chars::needs_quoting;
use crate::chars::quote_needed;
use crate::chars::spec_quoted;
use crate::chars::spec_unquoted;
use crate::chars::unquote;
use crate::chars::spec_split_lines;
use crate::chars::spec_starts_with;
use crate::chars::split_lines;
use crate::chars::str_eq;
use crate::chars::strip_prefix;
use vstd::prelude::*;
use vstd::string::StrSliceExecFns;
use vstd::string::StringExecFns;

verus! {

/// Project-level configuration.
#[derive(Debug)]
pub struct Config {
    pub default_author: Option<String>,
}

impl Default for Config {
    fn default() -> (r: Config)
        ensures
            r.default_author is None,
    {
        Config { default_author: None }
    }
}

impl Clone for Config {
    fn clone(&self) -> (r: Self)
        ensures
            r.default_author.deep_view() == self.default_author.deep_view(),
    {
        Config {
            default_author: match &self.default_author {
                Some(a) => Some(a.clone()),
                None => None,
            },
        }
    }
}

/// The configuration's textual form: its one field, an absent value as null.
pub open spec fn spec_config_text(author: Option<Seq<char>>) -> Seq<char> {
    match author {
        Some(a) => "default_author: "@ + spec_quoted(a) + "\n"@,
        None => "default_author: null\n"@,
    }
}

/// What a configuration text denotes: the author named on its
/// `default_author` line, with a bare `null`, `~` or nothing meaning none,
/// and one surrounding pair of quotes stripped; any other content means an
/// empty configuration.
pub open spec fn spec_config_of_text(s: Seq<char>) -> Option<Seq<char>> {
    let ls = spec_split_lines(s);
    if ls.len() >= 1 && spec_starts_with(ls[0], "default_author: "@) {
        let v = ls[0].subrange("default_author: "@.len() as int, ls[0].len() as int);
        if v == "null"@ || v == "~"@ || v.len() == 0 {
            None
        } else {
            Some(spec_unquoted(v))
        }
    } else {
        None
    }
}

impl Config {
    /// The resolved default author, if one is configured.
    pub fn get_author(&self) -> (r: Option<String>)
        ensures
            r.deep_view() == self.default_author.deep_view(),
    {
        match &self.default_author {
            Some(a) => Some(a.clone()),
            None => None,
        }
    }

    /// Renders the configuration to its file text.
    pub fn render(&self) -> (r: String)
        ensures
            r@ == spec_config_text(self.default_author.deep_view()),
    {
        match &self.default_author {
            Some(a) => {
                let mut s = String::from_str("default_author: ");
                if quote_needed(a.as_str()) {
                    crate::chars::push_char(&mut s, '\'');
                    s.append(a.as_str());
                    crate::chars::push_char(&mut s, '\'');
                } else {
                    s.append(a.as_str());
                }
                s.append("\n");
                proof {
                    assert(s@ =~= spec_config_text(self.default_author.deep_view()));
                }
                s
            },
            None => String::from_str("default_author: null\n"),
        }
    }

    /// Reads a configuration back from its file text; unrecognized content
    /// yields the empty configuration.
    pub fn parse(s: &str) -> (r: Config)
        ensures
            r.default_author.deep_view() == spec_config_of_text(s@),
    {
        let lines = split_lines(s);
        proof {
            crate::chars::lemma_split_lines_len(s@);
            assert(lines.deep_view()[0] == lines@[0]@);
        }
        match strip_prefix(lines[0].as_str(), "default_author: ") {
            Some(v) => {
                proof {
                    reveal_strlit("null");
                    reveal_strlit("~");
                }
                if str_eq(v, "null") || str_eq(v, "~") || v.unicode_len() == 0 {
                    Config { default_author: None }
                } else {
                    Config { default_author: Some(String::from_str(unquote(v))) }
                }
            },
            None => Config { default_author: None },
        }
    }
}

/// Rendering a configuration and reading it back preserves the author,
/// for any author name that fits on one line.
pub proof fn lemma_config_roundtrip(author: Option<Seq<char>>)
    requires
        match author {
            Some(a) => line_has_no_newline(a),
            None => true,
        },
    ensures
        spec_config_of_text(spec_config_text(author)) == author,
{
    reveal_strlit("default_author: ");
    reveal_strlit("default_author: null\n");
    reveal_strlit("default_author: null");
    reveal_strlit("null");
    reveal_strlit("~");
    reveal_strlit("\n");
    match author {
        Some(a) => {
            let q = spec_quoted(a);
            let line = "default_author: "@ + q;
            let text = spec_config_text(author);
            assert(text =~= line + seq!['\n'] + Seq::<char>::empty());
            crate::chars::lemma_split_lines_concat(line, Seq::<char>::empty());
            assert(line_has_no_newline(line)) by {
                assert(forall|i: int|
                    0 <= i < q.len() ==> #[trigger] q[i] == a[i] || q[i] == '\'' || q[i] == a[i
                        - 1]);
                assert(forall|i: int|
                    0 <= i < line.len() ==> #[trigger] line[i] == (if i < 16 {
                        "default_author: "@[i]
                    } else {
                        q[i - 16]
                    }));
                assert(forall|i: int| 0 <= i < 16 ==> "default_author: "@[i] != '\n');
            }
            crate::chars::lemma_split_lines_single(line);
            let ls = spec_split_lines(text);
            assert(ls[0] == line);
            assert(spec_starts_with(line, "default_author: "@)) by {
                assert(line.subrange(0, 16) =~= "default_author: "@);
            }
            assert(line.subrange(16, line.len() as int) =~= q);
            lemma_quoting_roundtrip(a);
            assert(q != "null"@ && q != "~"@ && q.len() > 0) by {
                if needs_quoting(a) {
                    assert(q[0] == '\'' && q[q.len() - 1] == '\'');
                    assert("null"@[0] == 'n');
                    assert("~"@[0] == '~');
                }
            }
        },
        None => {
            let text = spec_config_text(author);
            let line = "default_author: null"@;
            assert(text =~= line + seq!['\n'] + Seq::<char>::empty());
            crate::chars::lemma_split_lines_concat(line, Seq::<char>::empty());
            assert(line_has_no_newline(line));
            crate::chars::lemma_split_lines_single(line);
            let ls = spec_split_lines(text);
            assert(ls[0] == line);
            assert(spec_starts_with(line, "default_author: "@)) by {
                assert(line.subrange(0, 16) =~= "default_author: "@);
            }
            assert(line.subrange(16, line.len() as int) =~= "null"@);
        },
    }
}

} // verus!
