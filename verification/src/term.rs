//! Width-aware line presentation: stripping ANSI escape sequences,
//! measuring display width, and truncating lines to a terminal's width
//! with a trailing ellipsis.
use vstd::prelude::*;
use vstd::string::StrSliceExecFns;
use vstd::string::StringExecFns;

verus! {

pub open spec fn is_ascii_alpha(c: char) -> bool {
    ('a' <= c && c <= 'z') || ('A' <= c && c <= 'Z')
}

fn ascii_alpha(c: char) -> (r: bool)
    ensures
        r == is_ascii_alpha(c),
{
    ('a' <= c && c <= 'z') || ('A' <= c && c <= 'Z')
}

/// One past the first ASCII letter at or after `j`: the end of an ANSI
/// control sequence's parameter bytes.
pub open spec fn sp_scan_alpha(s: Seq<char>, j: int) -> int
    decreases s.len() - j,
{
    if j < 0 || j >= s.len() {
        s.len() as int
    } else if is_ascii_alpha(s[j]) {
        j + 1
    } else {
        sp_scan_alpha(s, j + 1)
    }
}

proof fn lemma_scan_alpha_ge(s: Seq<char>, j: int)
    requires
        0 <= j <= s.len(),
    ensures
        j <= sp_scan_alpha(s, j) <= s.len(),
    decreases s.len() - j,
{
    if j < s.len() && !is_ascii_alpha(s[j]) {
        lemma_scan_alpha_ge(s, j + 1);
    }
}

/// The text from `i` on with ANSI escape sequences removed: an escape
/// introducing `[` swallows everything through the closing letter, and a
/// stray escape disappears by itself.
pub open spec fn sp_strip_ansi_from(s: Seq<char>, i: int) -> Seq<char>
    decreases s.len() - i,
    via sp_strip_ansi_decreases
{
    if i < 0 || i >= s.len() {
        Seq::<char>::empty()
    } else if s[i] == '\x1b' {
        if i + 1 < s.len() && s[i + 1] == '[' {
            sp_strip_ansi_from(s, sp_scan_alpha(s, i + 2))
        } else {
            sp_strip_ansi_from(s, i + 1)
        }
    } else {
        seq![s[i]] + sp_strip_ansi_from(s, i + 1)
    }
}

#[via_fn]
proof fn sp_strip_ansi_decreases(s: Seq<char>, i: int) {
    if 0 <= i < s.len() && s[i] == '\x1b' && i + 1 < s.len() && s[i + 1] == '[' {
        lemma_scan_alpha_ge(s, i + 2);
    }
}

/// The whole text with ANSI escape sequences removed.
pub open spec fn spec_strip_ansi(s: Seq<char>) -> Seq<char> {
    sp_strip_ansi_from(s, 0)
}

/// Strips ANSI escape sequences, as the terminal coloring writes them.
pub fn strip_ansi(s: &str) -> (r: String)
    ensures
        r@ == spec_strip_ansi(s@),
{
    let n = s.unicode_len();
    let mut out = String::new();
    let mut i: usize = 0;
    while i < n
        invariant
            n == s@.len(),
            i <= n,
            spec_strip_ansi(s@) == out@ + sp_strip_ansi_from(s@, i as int),
        decreases n - i,
    {
        let c = s.get_char(i);
        if c == '\x1b' {
            if i + 1 < n && s.get_char(i + 1) == '[' {
                let mut j = i + 2;
                while j < n && !ascii_alpha(s.get_char(j))
                    invariant
                        n == s@.len(),
                        i + 2 <= j <= n,
                        sp_scan_alpha(s@, i + 2) == sp_scan_alpha(s@, j as int),
                    decreases n - j,
                {
                    j = j + 1;
                }
                if j < n {
                    proof {
                        assert(sp_scan_alpha(s@, j as int) == j + 1);
                    }
                    i = j + 1;
                } else {
                    i = n;
                }
            } else {
                i = i + 1;
            }
        } else {
            crate::chars::push_char(&mut out, c);
            proof {
                assert(out@ + sp_strip_ansi_from(s@, i + 1) =~= (out@.drop_last() + (seq![c]
                    + sp_strip_ansi_from(s@, i + 1))));
            }
            i = i + 1;
        }
    }
    out
}

/// Name for what unicode-width's UnicodeWidthStr::width answers on a text:
/// its display width in terminal columns.
pub uninterp spec fn sp_str_width(s: Seq<char>) -> nat;

/// Name for what unicode-width's UnicodeWidthChar::width answers on one
/// character: its display width in columns, or nothing for a control
/// character.
pub uninterp spec fn sp_char_width(c: char) -> Option<nat>;

/// Relies on unicode-width's UnicodeWidthStr::width: the result depends on
/// the characters alone.
#[verifier::external_body]
fn str_display_width(s: &str) -> (r: usize)
    ensures
        r == sp_str_width(s@),
{
    unicode_width::UnicodeWidthStr::width(s)
}

/// Relies on unicode-width's UnicodeWidthChar::width: the result depends on
/// the character alone; a control character has no width.
#[verifier::external_body]
fn char_display_width(c: char) -> (r: Option<usize>)
    ensures
        match r {
            Some(w) => sp_char_width(c) == Some(w as nat),
            None => sp_char_width(c) is None,
        },
{
    unicode_width::UnicodeWidthChar::width(c)
}

/// A character's contribution to a truncated line: control characters
/// count for nothing.
pub open spec fn sp_char_cols(c: char) -> nat {
    match sp_char_width(c) {
        Some(w) => w,
        None => 0,
    }
}

fn char_cols(c: char) -> (r: usize)
    ensures
        r == sp_char_cols(c),
{
    match char_display_width(c) {
        Some(w) => w,
        None => 0,
    }
}

/// The display width of a text once its ANSI escapes are stripped.
pub fn display_width(s: &str) -> (r: usize)
    ensures
        r == sp_str_width(spec_strip_ansi(s@)),
{
    let stripped = strip_ansi(s);
    str_display_width(stripped.as_str())
}

/// The longest prefix from `i` whose column widths, on top of `w`, stay
/// within `target`.
pub open spec fn sp_take_width(s: Seq<char>, i: int, w: int, target: int) -> Seq<char>
    decreases s.len() - i,
{
    if i < 0 || i >= s.len() || w + sp_char_cols(s[i]) > target {
        Seq::<char>::empty()
    } else {
        seq![s[i]] + sp_take_width(s, i + 1, w + sp_char_cols(s[i]) as int, target)
    }
}

pub open spec fn sp_dots(n: int) -> Seq<char> {
    Seq::<char>::new(if n >= 0 {
        n as nat
    } else {
        0
    }, |i: int| '.')
}

/// What truncation answers: the text itself when it fits, only dots when
/// the width leaves no room for content, else the widest stripped prefix
/// that leaves room for a three-dot ellipsis.
pub open spec fn spec_truncated(s: Seq<char>, max_width: int) -> Seq<char> {
    let stripped = spec_strip_ansi(s);
    if sp_str_width(stripped) <= max_width {
        s
    } else if max_width < 4 {
        sp_dots(max_width)
    } else {
        sp_take_width(stripped, 0, 0, max_width - 3) + "..."@
    }
}

/// Truncates a line to at most `max_width` display columns, appending an
/// ellipsis when anything was cut. The text comes back untouched when it
/// already fits.
pub fn truncate_to_width(s: &str, max_width: usize) -> (r: String)
    ensures
        r@ == spec_truncated(s@, max_width as int),
{
    let stripped = strip_ansi(s);
    let current_width = str_display_width(stripped.as_str());
    if current_width <= max_width {
        return String::from_str(s);
    }
    if max_width < 4 {
        let mut dots = String::new();
        let mut k: usize = 0;
        while k < max_width
            invariant
                k <= max_width,
                dots@ == sp_dots(k as int),
            decreases max_width - k,
        {
            crate::chars::push_char(&mut dots, '.');
            proof {
                assert(dots@ =~= sp_dots(k + 1));
            }
            k = k + 1;
        }
        return dots;
    }
    let target = max_width - 3;
    let n = stripped.as_str().unicode_len();
    let mut out = String::new();
    let mut width: usize = 0;
    let mut i: usize = 0;
    let mut done = false;
    while i < n && !done
        invariant
            n == stripped@.len(),
            i <= n,
            width <= target,
            !done ==> sp_take_width(stripped@, 0, 0, target as int) == out@ + sp_take_width(
                stripped@,
                i as int,
                width as int,
                target as int,
            ),
            done ==> out@ == sp_take_width(stripped@, 0, 0, target as int),
        decreases n - i, (if done { 0int } else { 1int }),
    {
        let c = stripped.as_str().get_char(i);
        let cw = char_cols(c);
        if cw > target - width {
            done = true;
        } else {
            crate::chars::push_char(&mut out, c);
            proof {
                assert(out@ + sp_take_width(stripped@, i + 1, width + cw, target as int) =~= (
                out@.drop_last() + (seq![c] + sp_take_width(
                    stripped@,
                    i + 1,
                    width + cw,
                    target as int,
                ))));
            }
            width = width + cw;
            i = i + 1;
        }
    }
    out.append("...");
    out
}

/// The first line of the body, among those before any `## Log` heading,
/// whose trimmed text is not empty; empty when there is none.
pub open spec fn sp_first_preview_line(ls: Seq<Seq<char>>, i: int) -> Seq<char>
    decreases ls.len() - i,
{
    if i < 0 || i >= ls.len() || crate::chars::spec_starts_with(ls[i], "## Log"@) {
        Seq::<char>::empty()
    } else if crate::chars::spec_trim(ls[i]).len() > 0 {
        crate::chars::spec_trim(ls[i])
    } else {
        sp_first_preview_line(ls, i + 1)
    }
}

/// What a body preview answers: the first meaningful line, cut to
/// `max_len` characters with an ellipsis when longer.
pub open spec fn spec_body_preview(body: Seq<char>, max_len: int) -> Seq<char> {
    let p = sp_first_preview_line(crate::chars::spec_split_lines(body), 0);
    if p.len() <= max_len {
        p
    } else {
        p.subrange(
            0,
            if max_len >= 3 {
                max_len - 3
            } else {
                0
            },
        ) + "..."@
    }
}

/// A short preview of a body: its first meaningful line before any log
/// heading, cut to `max_len` characters with a trailing ellipsis.
pub fn body_preview(body: &str, max_len: usize) -> (r: String)
    ensures
        r@ == spec_body_preview(body@, max_len as int),
{
    let lines = crate::chars::split_lines(body);
    let ghost ls = crate::chars::spec_split_lines(body@);
    let n = lines.len();
    let mut i: usize = 0;
    while i < n
        invariant
            n == ls.len(),
            ls == lines.deep_view(),
            ls == crate::chars::spec_split_lines(body@),
            i <= n,
            sp_first_preview_line(ls, 0) == sp_first_preview_line(ls, i as int),
        decreases n - i,
    {
        proof {
            assert(ls[i as int] == lines@[i as int]@);
        }
        if crate::chars::str_starts_with(lines[i].as_str(), "## Log") {
            proof {
                assert(sp_first_preview_line(ls, i as int) == Seq::<char>::empty());
                assert(sp_first_preview_line(ls, 0) == Seq::<char>::empty());
                assert(spec_body_preview(body@, max_len as int) == Seq::<char>::empty());
            }
            return String::new();
        }
        let t = crate::chars::trim(lines[i].as_str());
        let tn = t.unicode_len();
        if tn > 0 {
            proof {
                assert(sp_first_preview_line(ls, i as int) == t@);
                assert(sp_first_preview_line(ls, 0) == t@);
            }
            if tn <= max_len {
                proof {
                    assert(spec_body_preview(body@, max_len as int) == t@);
                }
                return String::from_str(t);
            }
            let keep: usize = if max_len >= 3 {
                max_len - 3
            } else {
                0
            };
            let mut out = String::from_str(t.substring_char(0, keep));
            out.append("...");
            return out;
        }
        proof {
            assert(sp_first_preview_line(ls, i as int) == sp_first_preview_line(ls, i + 1));
        }
        i = i + 1;
    }
    proof {
        assert(sp_first_preview_line(ls, n as int) == Seq::<char>::empty());
    }
    String::new()
}

/// A line formatter that truncates to a fixed width, or not at all.
pub struct LineFormatter {
    max_width: Option<usize>,
}

impl View for LineFormatter {
    type V = Option<usize>;

    closed spec fn view(&self) -> Option<usize> {
        self.max_width
    }
}

/// The narrowest terminal in which truncation is still worthwhile.
pub const MIN_TRUNCATION_WIDTH: usize = 40;

/// The width left for content beside a fixed prefix; nothing when no limit
/// is set or fewer than ten columns would remain.
pub open spec fn spec_available_width(mw: Option<usize>, prefix_width: int) -> Option<usize> {
    match mw {
        Some(w) => {
            let a = if w >= prefix_width {
                w - prefix_width
            } else {
                0
            };
            if a >= 10 {
                Some(a as usize)
            } else {
                None
            }
        },
        None => None,
    }
}

/// Relies on terminal_size::terminal_size for the terminal's column count;
/// nothing is assumed of the answer, which depends on the environment.
#[verifier::external_body]
pub fn terminal_width() -> (r: Option<usize>) {
    terminal_size::terminal_size().map(|(terminal_size::Width(w), _)| w as usize)
}

impl LineFormatter {
    /// A formatter with the given width limit; none means no truncation.
    pub fn new(max_width: Option<usize>) -> (r: LineFormatter)
        ensures
            r@ == max_width,
    {
        LineFormatter { max_width }
    }

    /// A formatter sized to the terminal: no truncation when the output is
    /// not a terminal or the terminal is narrower than the minimum.
    pub fn auto() -> (r: LineFormatter)
        ensures
            match r@ {
                Some(w) => w >= MIN_TRUNCATION_WIDTH,
                None => true,
            },
    {
        let max_width = match terminal_width() {
            Some(w) => if w >= MIN_TRUNCATION_WIDTH {
                Some(w)
            } else {
                None
            },
            None => None,
        };
        LineFormatter { max_width }
    }

    /// The effective width limit, if any.
    pub fn max_width(&self) -> (r: Option<usize>)
        ensures
            r == self@,
    {
        self.max_width
    }

    /// The width left for content after a fixed-width prefix.
    pub fn available_width(&self, prefix_width: usize) -> (r: Option<usize>)
        ensures
            r == spec_available_width(self@, prefix_width as int),
    {
        match self.max_width {
            Some(w) => {
                let a = if w >= prefix_width {
                    w - prefix_width
                } else {
                    0
                };
                if a >= 10 {
                    Some(a)
                } else {
                    None
                }
            },
            None => None,
        }
    }

    /// Truncates content to the width left beside the prefix; content comes
    /// back untouched when no truncation applies.
    pub fn truncate(&self, content: &str, prefix_width: usize) -> (r: String)
        ensures
            r@ == match spec_available_width(self@, prefix_width as int) {
                Some(a) => spec_truncated(content@, a as int),
                None => content@,
            },
    {
        match self.available_width(prefix_width) {
            Some(available) => truncate_to_width(content, available),
            None => String::from_str(content),
        }
    }
}

} // verus!
