//! Character-sequence utilities shared by the document format and the
//! identifier logic: ASCII case folding, whitespace trimming, splitting a
//! text into lines and joining lines back, and fixed-width decimal digits.
//! The lemmas here relate splitting and joining, so that the document
//! round-trip proof can reason line by line.
use vstd::prelude::*;
use vstd::string::StrSliceExecFns;
use vstd::string::StringExecFns;

verus! {

// ---------------------------------------------------------------------------
// ASCII case folding
// ---------------------------------------------------------------------------
pub open spec fn spec_lower_char(c: char) -> char {
    if 'A' <= c && c <= 'Z' {
        (c as u8 + 32) as char
    } else {
        c
    }
}

/// Case folding of a whole sequence, character by character.
pub open spec fn spec_lower(s: Seq<char>) -> Seq<char> {
    s.map_values(|c: char| spec_lower_char(c))
}

pub fn lower_char(c: char) -> (r: char)
    ensures
        r == spec_lower_char(c),
{
    if 'A' <= c && c <= 'Z' {
        ((c as u8) + 32) as char
    } else {
        c
    }
}

/// The whole string folded to lowercase, character by character.
pub fn fold_lower(s: &str) -> (r: String)
    ensures
        r@ == spec_lower(s@),
{
    let n = s.unicode_len();
    let mut out = String::new();
    let mut i: usize = 0;
    while i < n
        invariant
            n == s@.len(),
            i <= n,
            out@ == spec_lower(s@.subrange(0, i as int)),
        decreases n - i,
    {
        let c = lower_char(s.get_char(i));
        push_char(&mut out, c);
        proof {
            assert(out@ =~= spec_lower(s@.subrange(0, i + 1)));
        }
        i = i + 1;
    }
    proof {
        assert(s@.subrange(0, n as int) =~= s@);
    }
    out
}

// ---------------------------------------------------------------------------
// Small exec helpers over strings
// ---------------------------------------------------------------------------
/// Relies on String::push: appends the given character at the end.
#[verifier::external_body]
pub fn push_char(s: &mut String, c: char)
    ensures
        final(s)@ == old(s)@.push(c),
{
    s.push(c)
}

pub fn str_eq(a: &str, b: &str) -> (r: bool)
    ensures
        r == (a@ == b@),
{
    let na = a.unicode_len();
    let nb = b.unicode_len();
    if na != nb {
        return false;
    }
    let mut i: usize = 0;
    while i < na
        invariant
            na == a@.len(),
            na == b@.len(),
            i <= na,
            forall|j: int| 0 <= j < i ==> a@[j] == b@[j],
        decreases na - i,
    {
        if a.get_char(i) != b.get_char(i) {
            return false;
        }
        i = i + 1;
    }
    proof {
        assert(a@ =~= b@);
    }
    true
}

pub open spec fn spec_starts_with(s: Seq<char>, p: Seq<char>) -> bool {
    p.len() <= s.len() && s.subrange(0, p.len() as int) == p
}

pub fn str_starts_with(s: &str, p: &str) -> (r: bool)
    ensures
        r == spec_starts_with(s@, p@),
{
    let np = p.unicode_len();
    let ns = s.unicode_len();
    if np > ns {
        assert(!spec_starts_with(s@, p@));
        return false;
    }
    let mut i: usize = 0;
    while i < np
        invariant
            np == p@.len(),
            ns == s@.len(),
            np <= ns,
            i <= np,
            forall|j: int| 0 <= j < i ==> s@[j] == p@[j],
        decreases np - i,
    {
        if s.get_char(i) != p.get_char(i) {
            proof {
                assert(s@.subrange(0, p@.len() as int)[i as int] == s@[i as int]);
            }
            return false;
        }
        i = i + 1;
    }
    proof {
        assert(s@.subrange(0, p@.len() as int) =~= p@);
    }
    true
}

/// The remainder of `s` after the prefix `p`, when `s` starts with `p`.
pub fn strip_prefix<'a>(s: &'a str, p: &str) -> (r: Option<&'a str>)
    ensures
        match r {
            Some(t) => spec_starts_with(s@, p@) && t@ == s@.subrange(p@.len() as int, s@.len() as int),
            None => !spec_starts_with(s@, p@),
        },
{
    if str_starts_with(s, p) {
        let np = p.unicode_len();
        let ns = s.unicode_len();
        Some(s.substring_char(np, ns))
    } else {
        None
    }
}

pub fn str_concat(a: &str, b: &str) -> (r: String)
    ensures
        r@ == a@ + b@,
{
    let mut s = String::from_str(a);
    s.append(b);
    s
}

// ---------------------------------------------------------------------------
// Quoting of single-line values
// ---------------------------------------------------------------------------
/// Whether a value sits between a matching pair of quotes.
pub open spec fn is_quote_wrapped(v: Seq<char>) -> bool {
    v.len() >= 2 && v[0] == v[v.len() - 1] && (v[0] == '\'' || v[0] == '"')
}

/// Whether a value must be written quoted: it would otherwise read as
/// null or absent, or a parser would strip its own quotes off.
pub open spec fn needs_quoting(v: Seq<char>) -> bool {
    v == "null"@ || v == "~"@ || v.len() == 0 || is_quote_wrapped(v)
}

/// A value as written: single-quoted when it needs quoting, raw otherwise.
pub open spec fn spec_quoted(v: Seq<char>) -> Seq<char> {
    if needs_quoting(v) {
        seq!['\''] + v + seq!['\'']
    } else {
        v
    }
}

/// A value as read: one surrounding pair of matching quotes stripped.
pub open spec fn spec_unquoted(v: Seq<char>) -> Seq<char> {
    if is_quote_wrapped(v) {
        v.subrange(1, v.len() - 1)
    } else {
        v
    }
}

/// Reading a written value gives the value back.
pub proof fn lemma_quoting_roundtrip(v: Seq<char>)
    ensures
        spec_unquoted(spec_quoted(v)) == v,
{
    if needs_quoting(v) {
        let q = seq!['\''] + v + seq!['\''];
        assert(q[0] == '\'' && q[q.len() - 1] == '\'');
        assert(q.subrange(1, q.len() - 1) =~= v);
    }
}

/// A quoted value keeps to one line when the value does.
pub proof fn lemma_quoted_no_newline(v: Seq<char>)
    requires
        line_has_no_newline(v),
    ensures
        line_has_no_newline(spec_quoted(v)),
{
    if needs_quoting(v) {
        let q = seq!['\''] + v + seq!['\''];
        assert forall|i: int| 0 <= i < q.len() implies q[i] != '\n' by {
            if 1 <= i < q.len() - 1 {
                assert(q[i] == v[i - 1]);
            }
        }
    }
}

/// A value as read, executably: one surrounding pair stripped.
pub fn unquote(v: &str) -> (r: &str)
    ensures
        r@ == spec_unquoted(v@),
{
    let n = v.unicode_len();
    if n >= 2 {
        let first = v.get_char(0);
        let last = v.get_char(n - 1);
        if first == last && (first == '\'' || first == '"') {
            return v.substring_char(1, n - 1);
        }
    }
    v
}

pub fn quote_needed(v: &str) -> (r: bool)
    ensures
        r == needs_quoting(v@),
{
    proof {
        reveal_strlit("null");
        reveal_strlit("~");
    }
    if str_eq(v, "null") || str_eq(v, "~") {
        return true;
    }
    let n = v.unicode_len();
    if n == 0 {
        return true;
    }
    if n >= 2 {
        let first = v.get_char(0);
        let last = v.get_char(n - 1);
        if first == last && (first == '\'' || first == '"') {
            return true;
        }
    }
    false
}

/// The value a quoted text writes back, one for one.
pub fn quoted_string(v: &str) -> (r: String)
    ensures
        r@ == spec_quoted(v@),
{
    if quote_needed(v) {
        let mut s = String::new();
        push_char(&mut s, '\'');
        s.append(v);
        push_char(&mut s, '\'');
        proof {
            assert(s@ =~= spec_quoted(v@));
        }
        s
    } else {
        String::from_str(v)
    }
}

// ---------------------------------------------------------------------------
// Whitespace trimming
// ---------------------------------------------------------------------------
pub open spec fn is_ws(c: char) -> bool {
    c == ' ' || c == '\t' || c == '\n' || c == '\r'
}

pub open spec fn spec_trim_start(s: Seq<char>) -> Seq<char>
    decreases s.len(),
{
    if s.len() > 0 && is_ws(s[0]) {
        spec_trim_start(s.drop_first())
    } else {
        s
    }
}

pub open spec fn spec_trim_end(s: Seq<char>) -> Seq<char>
    decreases s.len(),
{
    if s.len() > 0 && is_ws(s[s.len() - 1]) {
        spec_trim_end(s.drop_last())
    } else {
        s
    }
}

pub open spec fn spec_trim(s: Seq<char>) -> Seq<char> {
    spec_trim_end(spec_trim_start(s))
}

/// A sequence with no leading and no trailing whitespace trims to itself.
pub open spec fn is_trimmed(s: Seq<char>) -> bool {
    s.len() == 0 || (!is_ws(s[0]) && !is_ws(s[s.len() - 1]))
}

proof fn lemma_trim_start_index(s: Seq<char>, k: int)
    requires
        0 <= k <= s.len(),
        forall|j: int| 0 <= j < k ==> is_ws(s[j]),
        k == s.len() || !is_ws(s[k]),
    ensures
        spec_trim_start(s) == s.subrange(k, s.len() as int),
    decreases k,
{
    if k == 0 {
        assert(s.subrange(0, s.len() as int) =~= s);
    } else {
        let t = s.drop_first();
        lemma_trim_start_index(t, k - 1);
        assert(t.subrange(k - 1, t.len() as int) =~= s.subrange(k, s.len() as int));
    }
}

proof fn lemma_trim_end_index(s: Seq<char>, k: int)
    requires
        0 <= k <= s.len(),
        forall|j: int| k <= j < s.len() ==> is_ws(s[j]),
        k == 0 || !is_ws(s[k - 1]),
    ensures
        spec_trim_end(s) == s.subrange(0, k),
    decreases s.len(),
{
    if k == s.len() {
        if s.len() == 0 {
            assert(s.subrange(0, 0) =~= s);
        } else {
            assert(s.subrange(0, k) =~= s);
        }
    } else {
        let t = s.drop_last();
        lemma_trim_end_index(t, k);
        assert(t.subrange(0, k) =~= s.subrange(0, k));
    }
}

/// Trimming a trimmed text wrapped in one newline on each side gives the text back.
pub proof fn lemma_trim_wrapped(body: Seq<char>)
    requires
        is_trimmed(body),
    ensures
        spec_trim(seq!['\n'] + body + seq!['\n']) == body,
{
    let s = seq!['\n'] + body + seq!['\n'];
    if body.len() == 0 {
        assert(s =~= seq!['\n', '\n']);
        lemma_trim_start_index(s, 2);
        assert(s.subrange(2, 2) =~= Seq::<char>::empty());
        lemma_trim_end_index(Seq::<char>::empty(), 0);
        assert(Seq::<char>::empty().subrange(0, 0) =~= Seq::<char>::empty());
        assert(body =~= Seq::<char>::empty());
    } else {
        assert(s[1] == body[0]);
        lemma_trim_start_index(s, 1);
        let t = s.subrange(1, s.len() as int);
        assert(t =~= body + seq!['\n']);
        lemma_trim_end_index(body + seq!['\n'], body.len() as int);
        assert((body + seq!['\n']).subrange(0, body.len() as int) =~= body);
    }
}

pub fn trim(s: &str) -> (r: &str)
    ensures
        r@ == spec_trim(s@),
{
    let n = s.unicode_len();
    let mut a: usize = 0;
    while a < n && is_ws_char(s.get_char(a))
        invariant
            n == s@.len(),
            a <= n,
            forall|j: int| 0 <= j < a ==> is_ws(s@[j]),
        decreases n - a,
    {
        a = a + 1;
    }
    proof {
        lemma_trim_start_index(s@, a as int);
    }
    let mut b: usize = n;
    while b > a && is_ws_char(s.get_char(b - 1))
        invariant
            n == s@.len(),
            a <= b <= n,
            forall|j: int| 0 <= j < a ==> is_ws(s@[j]),
            a == n || !is_ws(s@[a as int]),
            forall|j: int| b <= j < n ==> is_ws(s@[j]),
        decreases b,
    {
        b = b - 1;
    }
    proof {
        let t = s@.subrange(a as int, n as int);
        lemma_trim_end_index(t, b - a);
        assert(t.subrange(0, b - a) =~= s@.subrange(a as int, b as int));
    }
    s.substring_char(a, b)
}

fn is_ws_char(c: char) -> (r: bool)
    ensures
        r == is_ws(c),
{
    c == ' ' || c == '\t' || c == '\n' || c == '\r'
}

// ---------------------------------------------------------------------------
// Lines: splitting on '\n' and joining with '\n'
// ---------------------------------------------------------------------------
pub open spec fn spec_split_lines(s: Seq<char>) -> Seq<Seq<char>>
    decreases s.len(),
{
    if s.len() == 0 {
        seq![Seq::<char>::empty()]
    } else if s[0] == '\n' {
        seq![Seq::<char>::empty()] + spec_split_lines(s.drop_first())
    } else {
        let r = spec_split_lines(s.drop_first());
        seq![seq![s[0]] + r[0]] + r.drop_first()
    }
}

pub open spec fn spec_join_lines(ls: Seq<Seq<char>>) -> Seq<char>
    decreases ls.len(),
{
    if ls.len() == 0 {
        Seq::<char>::empty()
    } else if ls.len() == 1 {
        ls[0]
    } else {
        ls[0] + seq!['\n'] + spec_join_lines(ls.drop_first())
    }
}

pub open spec fn line_has_no_newline(l: Seq<char>) -> bool {
    forall|i: int| 0 <= i < l.len() ==> l[i] != '\n'
}

pub open spec fn lines_have_no_newline(ls: Seq<Seq<char>>) -> bool {
    forall|i: int| 0 <= i < ls.len() ==> line_has_no_newline(#[trigger] ls[i])
}

pub proof fn lemma_split_lines_len(s: Seq<char>)
    ensures
        spec_split_lines(s).len() >= 1,
    decreases s.len(),
{
    if s.len() == 0 {
    } else {
        lemma_split_lines_len(s.drop_first());
    }
}

/// Splitting distributes over a newline: the lines of `a + "\n" + b` are the
/// lines of `a` followed by the lines of `b`.
pub proof fn lemma_split_lines_concat(a: Seq<char>, b: Seq<char>)
    ensures
        spec_split_lines(a + seq!['\n'] + b) == spec_split_lines(a) + spec_split_lines(b),
    decreases a.len(),
{
    let s = a + seq!['\n'] + b;
    if a.len() == 0 {
        assert(s =~= seq!['\n'] + b);
        assert(s[0] == '\n');
        assert(s.drop_first() =~= b);
        assert(spec_split_lines(s) == seq![Seq::<char>::empty()] + spec_split_lines(b));
        assert(spec_split_lines(a) == seq![Seq::<char>::empty()]);
    } else {
        assert(s.len() > 0 && s[0] == a[0]);
        assert(s.drop_first() =~= a.drop_first() + seq!['\n'] + b);
        lemma_split_lines_concat(a.drop_first(), b);
        lemma_split_lines_len(a.drop_first());
        lemma_split_lines_len(b);
        let ra = spec_split_lines(a.drop_first());
        let rb = spec_split_lines(b);
        if a[0] == '\n' {
            assert(spec_split_lines(s) == seq![Seq::<char>::empty()] + (ra + rb));
            assert(spec_split_lines(a) == seq![Seq::<char>::empty()] + ra);
            assert(seq![Seq::<char>::empty()] + (ra + rb) =~= (seq![Seq::<char>::empty()] + ra)
                + rb);
        } else {
            let r = ra + rb;
            assert(r[0] == ra[0]);
            assert(r.drop_first() =~= ra.drop_first() + rb);
            assert(spec_split_lines(s) == seq![seq![a[0]] + ra[0]] + (ra.drop_first() + rb));
            assert(spec_split_lines(a) == seq![seq![a[0]] + ra[0]] + ra.drop_first());
            assert(seq![seq![a[0]] + ra[0]] + (ra.drop_first() + rb) =~= (seq![seq![a[0]] + ra[0]]
                + ra.drop_first()) + rb);
        }
    }
}

/// A text without newlines is a single line.
pub proof fn lemma_split_lines_single(s: Seq<char>)
    requires
        line_has_no_newline(s),
    ensures
        spec_split_lines(s) == seq![s],
    decreases s.len(),
{
    if s.len() == 0 {
        assert(s =~= Seq::<char>::empty());
        assert(spec_split_lines(s) =~= seq![s]);
    } else {
        lemma_split_lines_single(s.drop_first());
        let r = spec_split_lines(s.drop_first());
        assert(r == seq![s.drop_first()]);
        assert(r[0] == s.drop_first());
        assert(seq![s[0]] + s.drop_first() =~= s);
        assert(r.drop_first() =~= Seq::<Seq<char>>::empty());
        assert(spec_split_lines(s) == seq![seq![s[0]] + r[0]] + r.drop_first());
        assert(seq![s] + Seq::<Seq<char>>::empty() =~= seq![s]);
    }
}

/// Joining the lines of a text gives the text back.
pub proof fn lemma_join_split(s: Seq<char>)
    ensures
        spec_join_lines(spec_split_lines(s)) == s,
    decreases s.len(),
{
    if s.len() == 0 {
    } else if s[0] == '\n' {
        lemma_join_split(s.drop_first());
        lemma_split_lines_len(s.drop_first());
        let r = spec_split_lines(s);
        assert(r.len() >= 2);
        assert(r.drop_first() =~= spec_split_lines(s.drop_first()));
        assert(r[0] + seq!['\n'] + spec_join_lines(r.drop_first()) =~= s);
    } else {
        lemma_join_split(s.drop_first());
        lemma_split_lines_len(s.drop_first());
        let ra = spec_split_lines(s.drop_first());
        let r = spec_split_lines(s);
        assert(r[0] == seq![s[0]] + ra[0]);
        if ra.len() == 1 {
            assert(r.len() == 1);
            assert(spec_join_lines(ra) == ra[0]);
            assert(spec_join_lines(r) == seq![s[0]] + ra[0]);
            assert(seq![s[0]] + ra[0] =~= s);
        } else {
            assert(r.len() >= 2);
            assert(r.drop_first() =~= ra.drop_first());
            let j = spec_join_lines(ra.drop_first());
            assert(spec_join_lines(r) == r[0] + seq!['\n'] + j);
            assert(spec_join_lines(ra) == ra[0] + seq!['\n'] + j);
            assert(ra[0] + seq!['\n'] + j == s.drop_first());
            assert(r[0] + seq!['\n'] + j =~= seq![s[0]] + (ra[0] + seq!['\n'] + j));
            assert(seq![s[0]] + s.drop_first() =~= s);
        }
    }
}

/// Splitting the join of newline-free lines gives the lines back.
pub proof fn lemma_split_join(ls: Seq<Seq<char>>)
    requires
        ls.len() >= 1,
        lines_have_no_newline(ls),
    ensures
        spec_split_lines(spec_join_lines(ls)) == ls,
    decreases ls.len(),
{
    if ls.len() == 1 {
        lemma_split_lines_single(ls[0]);
        assert(seq![ls[0]] =~= ls);
    } else {
        lemma_split_join(ls.drop_first());
        lemma_split_lines_concat(ls[0], spec_join_lines(ls.drop_first()));
        lemma_split_lines_single(ls[0]);
        assert(seq![ls[0]] + ls.drop_first() =~= ls);
    }
}

/// Joining distributes over concatenation of non-empty line sequences.
pub proof fn lemma_join_lines_concat(a: Seq<Seq<char>>, b: Seq<Seq<char>>)
    requires
        a.len() >= 1,
        b.len() >= 1,
    ensures
        spec_join_lines(a + b) == spec_join_lines(a) + seq!['\n'] + spec_join_lines(b),
    decreases a.len(),
{
    if a.len() == 1 {
        assert((a + b).drop_first() =~= b);
        assert((a + b)[0] == a[0]);
        assert(spec_join_lines(a + b) == a[0] + seq!['\n'] + spec_join_lines(b));
    } else {
        lemma_join_lines_concat(a.drop_first(), b);
        assert((a + b).drop_first() =~= a.drop_first() + b);
        assert((a + b)[0] == a[0]);
        assert(a[0] + seq!['\n'] + (spec_join_lines(a.drop_first()) + seq!['\n']
            + spec_join_lines(b)) =~= (a[0] + seq!['\n'] + spec_join_lines(a.drop_first()))
            + seq!['\n'] + spec_join_lines(b));
    }
}

/// A copy of the lines from index `a` (inclusive) to `b` (exclusive).
pub fn sub_lines(v: &Vec<String>, a: usize, b: usize) -> (r: Vec<String>)
    requires
        a <= b <= v@.len(),
    ensures
        r.deep_view() == v.deep_view().subrange(a as int, b as int),
{
    let mut out: Vec<String> = Vec::new();
    let mut i: usize = a;
    while i < b
        invariant
            a <= i <= b <= v@.len(),
            out@.len() == i - a,
            forall|j: int| 0 <= j < i - a ==> (#[trigger] out@[j])@ == v@[a + j]@,
        decreases b - i,
    {
        out.push(v[i].clone());
        i = i + 1;
    }
    proof {
        assert forall|j: int| 0 <= j < b - a implies out.deep_view()[j] == v.deep_view().subrange(
            a as int,
            b as int,
        )[j] by {
            assert(out@[j]@ == v@[a + j]@);
        }
        assert(out.deep_view() =~= v.deep_view().subrange(a as int, b as int));
    }
    out
}

/// The lines from index `a` (inclusive) to `b` (exclusive), joined with
/// newlines.
pub fn join_range(v: &Vec<String>, a: usize, b: usize) -> (r: String)
    requires
        a <= b <= v@.len(),
    ensures
        r@ == spec_join_lines(v.deep_view().subrange(a as int, b as int)),
{
    let mut out = String::new();
    let mut i: usize = a;
    while i < b
        invariant
            a <= i <= b <= v@.len(),
            out@ == spec_join_lines(v.deep_view().subrange(a as int, i as int)),
        decreases b - i,
    {
        if i > a {
            push_char(&mut out, '\n');
        }
        out.append(v[i].as_str());
        proof {
            let pre = v.deep_view().subrange(a as int, i as int);
            let post = v.deep_view().subrange(a as int, i + 1);
            assert(v.deep_view()[i as int] == v@[i as int]@);
            if i == a {
                assert(post =~= seq![v@[i as int]@]);
            } else {
                assert(post =~= pre + seq![v@[i as int]@]);
                lemma_join_lines_concat(pre, seq![v@[i as int]@]);
            }
        }
        i = i + 1;
    }
    proof {
        if a == b {
            assert(v.deep_view().subrange(a as int, b as int) =~= Seq::<Seq<char>>::empty());
        }
    }
    out
}

/// Each line terminated by a newline, concatenated.
pub open spec fn spec_lines_term(ls: Seq<Seq<char>>) -> Seq<char>
    decreases ls.len(),
{
    if ls.len() == 0 {
        Seq::<char>::empty()
    } else {
        ls[0] + seq!['\n'] + spec_lines_term(ls.drop_first())
    }
}

pub proof fn lemma_lines_term_concat(a: Seq<Seq<char>>, b: Seq<Seq<char>>)
    ensures
        spec_lines_term(a + b) == spec_lines_term(a) + spec_lines_term(b),
    decreases a.len(),
{
    if a.len() == 0 {
        assert(a + b =~= b);
        assert(Seq::<char>::empty() + spec_lines_term(b) =~= spec_lines_term(b));
    } else {
        lemma_lines_term_concat(a.drop_first(), b);
        assert((a + b).drop_first() =~= a.drop_first() + b);
        assert((a + b)[0] == a[0]);
        assert(a[0] + seq!['\n'] + (spec_lines_term(a.drop_first()) + spec_lines_term(b)) =~= (a[0]
            + seq!['\n'] + spec_lines_term(a.drop_first())) + spec_lines_term(b));
    }
}

/// Splitting newline-terminated lines followed by a tail: the lines come
/// first, then the lines of the tail.
pub proof fn lemma_split_lines_term(ls: Seq<Seq<char>>, tail: Seq<char>)
    requires
        lines_have_no_newline(ls),
    ensures
        spec_split_lines(spec_lines_term(ls) + tail) == ls + spec_split_lines(tail),
    decreases ls.len(),
{
    if ls.len() == 0 {
        assert(spec_lines_term(ls) + tail =~= tail);
        assert(ls + spec_split_lines(tail) =~= spec_split_lines(tail));
    } else {
        lemma_split_lines_term(ls.drop_first(), tail);
        let rest = spec_lines_term(ls.drop_first()) + tail;
        assert(spec_lines_term(ls) + tail =~= ls[0] + seq!['\n'] + rest);
        lemma_split_lines_concat(ls[0], rest);
        lemma_split_lines_single(ls[0]);
        assert(seq![ls[0]] + (ls.drop_first() + spec_split_lines(tail)) =~= ls + spec_split_lines(
            tail,
        ));
    }
}

/// Splits a text into lines at each newline character.
pub fn split_lines(s: &str) -> (r: Vec<String>)
    ensures
        r.deep_view() == spec_split_lines(s@),
{
    let n = s.unicode_len();
    let mut out: Vec<String> = Vec::new();
    let mut cur = String::new();
    let mut i: usize = 0;
    while i < n
        invariant
            n == s@.len(),
            i <= n,
            out.deep_view().push(cur@) == spec_split_lines(s@.subrange(0, i as int)),
        decreases n - i,
    {
        let c = s.get_char(i);
        let ghost p = s@.subrange(0, i as int);
        let ghost pre_out = out.deep_view();
        let ghost pre_cur = cur@;
        proof {
            assert(s@.subrange(0, i + 1) =~= p + seq![c]);
            if c == '\n' {
                assert(p + seq![c] =~= p + seq!['\n'] + Seq::<char>::empty());
                lemma_split_lines_concat(p, Seq::<char>::empty());
            } else {
                assert(p + seq![c] =~= p.push(c));
                lemma_split_last_char(p, c);
            }
            lemma_split_lines_len(p);
        }
        if c == '\n' {
            out.push(cur);
            cur = String::new();
            proof {
                assert(out.deep_view() =~= pre_out.push(pre_cur));
                assert(out.deep_view().push(cur@) =~= spec_split_lines(p) + seq![
                    Seq::<char>::empty(),
                ]);
            }
        } else {
            push_char(&mut cur, c);
            proof {
                let sp = spec_split_lines(p);
                assert(pre_out.push(pre_cur) == sp);
                assert(pre_cur == sp.last());
                assert(out.deep_view() == pre_out);
                assert(out.deep_view().push(cur@) =~= sp.update(sp.len() - 1, sp.last().push(c)));
            }
        }
        i = i + 1;
    }
    out.push(cur);
    proof {
        assert(s@.subrange(0, n as int) =~= s@);
    }
    out
}

/// Appending one character other than a newline extends the last line.
proof fn lemma_split_last_char(p: Seq<char>, c: char)
    requires
        c != '\n',
    ensures
        spec_split_lines(p.push(c)) == spec_split_lines(p).update(
            spec_split_lines(p).len() - 1,
            spec_split_lines(p).last().push(c),
        ),
    decreases p.len(),
{
    lemma_split_lines_len(p);
    let s = p.push(c);
    if p.len() == 0 {
        assert(s =~= seq![c]);
        assert(s[0] == c);
        assert(s.drop_first() =~= Seq::<char>::empty());
        let r = spec_split_lines(s.drop_first());
        assert(spec_split_lines(s) == seq![seq![c] + r[0]] + r.drop_first());
        assert(seq![c] + r[0] =~= Seq::<char>::empty().push(c));
        assert(spec_split_lines(s) =~= spec_split_lines(p).update(0, Seq::<char>::empty().push(c)));
    } else {
        lemma_split_last_char(p.drop_first(), c);
        lemma_split_lines_len(p.drop_first());
        assert(s[0] == p[0]);
        assert(s.drop_first() =~= p.drop_first().push(c));
        let ra = spec_split_lines(p.drop_first());
        let ra2 = spec_split_lines(p.drop_first().push(c));
        assert(ra2 == ra.update(ra.len() - 1, ra.last().push(c)));
        if p[0] == '\n' {
            let lhs = spec_split_lines(s);
            assert(lhs == seq![Seq::<char>::empty()] + ra2);
            let rp = spec_split_lines(p);
            assert(rp == seq![Seq::<char>::empty()] + ra);
            assert(lhs =~= rp.update(rp.len() - 1, rp.last().push(c)));
        } else {
            let lhs = spec_split_lines(s);
            if ra.len() == 1 {
                assert(ra2[0] == ra[0].push(c));
                assert(lhs == seq![seq![p[0]] + ra2[0]] + ra2.drop_first());
                let rp = spec_split_lines(p);
                assert(rp == seq![seq![p[0]] + ra[0]] + ra.drop_first());
                assert(rp.len() == 1);
                assert(seq![p[0]] + ra[0].push(c) =~= (seq![p[0]] + ra[0]).push(c));
                assert(lhs =~= rp.update(rp.len() - 1, rp.last().push(c)));
            } else {
                assert(ra2[0] == ra[0]);
                assert(lhs == seq![seq![p[0]] + ra[0]] + ra2.drop_first());
                let rp = spec_split_lines(p);
                assert(rp == seq![seq![p[0]] + ra[0]] + ra.drop_first());
                assert(ra2.drop_first() =~= ra.drop_first().update(
                    ra.drop_first().len() - 1,
                    ra.drop_first().last().push(c),
                ));
                assert(lhs =~= rp.update(rp.len() - 1, rp.last().push(c)));
            }
        }
    }
}

// ---------------------------------------------------------------------------
// Decimal digits, fixed width
// ---------------------------------------------------------------------------
pub open spec fn digit_char(d: int) -> char {
    if d == 0 {
        '0'
    } else if d == 1 {
        '1'
    } else if d == 2 {
        '2'
    } else if d == 3 {
        '3'
    } else if d == 4 {
        '4'
    } else if d == 5 {
        '5'
    } else if d == 6 {
        '6'
    } else if d == 7 {
        '7'
    } else if d == 8 {
        '8'
    } else {
        '9'
    }
}

pub open spec fn is_digit(c: char) -> bool {
    c == '0' || c == '1' || c == '2' || c == '3' || c == '4' || c == '5' || c == '6' || c == '7'
        || c == '8' || c == '9'
}

pub open spec fn digit_val(c: char) -> int {
    if c == '0' {
        0
    } else if c == '1' {
        1
    } else if c == '2' {
        2
    } else if c == '3' {
        3
    } else if c == '4' {
        4
    } else if c == '5' {
        5
    } else if c == '6' {
        6
    } else if c == '7' {
        7
    } else if c == '8' {
        8
    } else {
        9
    }
}

/// Two decimal digits, most significant first, of a value below 100.
pub open spec fn spec_fmt2(n: int) -> Seq<char> {
    seq![digit_char((n / 10) % 10), digit_char(n % 10)]
}

/// Four decimal digits, most significant first, of a value below 10000.
pub open spec fn spec_fmt4(n: int) -> Seq<char> {
    seq![
        digit_char((n / 1000) % 10),
        digit_char((n / 100) % 10),
        digit_char((n / 10) % 10),
        digit_char(n % 10),
    ]
}

pub proof fn lemma_digit_roundtrip(d: int)
    requires
        0 <= d <= 9,
    ensures
        digit_val(digit_char(d)) == d,
        is_digit(digit_char(d)),
{
}

pub proof fn lemma_fmt2_roundtrip(n: int)
    requires
        0 <= n <= 99,
    ensures
        is_digit(spec_fmt2(n)[0]),
        is_digit(spec_fmt2(n)[1]),
        digit_val(spec_fmt2(n)[0]) * 10 + digit_val(spec_fmt2(n)[1]) == n,
{
    lemma_digit_roundtrip((n / 10) % 10);
    lemma_digit_roundtrip(n % 10);
    assert((n / 10) % 10 * 10 + n % 10 == n) by (nonlinear_arith)
        requires
            0 <= n <= 99,
    ;
}

pub proof fn lemma_fmt4_roundtrip(n: int)
    requires
        0 <= n <= 9999,
    ensures
        forall|i: int| 0 <= i < 4 ==> is_digit(#[trigger] spec_fmt4(n)[i]),
        digit_val(spec_fmt4(n)[0]) * 1000 + digit_val(spec_fmt4(n)[1]) * 100 + digit_val(
            spec_fmt4(n)[2],
        ) * 10 + digit_val(spec_fmt4(n)[3]) == n,
{
    lemma_digit_roundtrip((n / 1000) % 10);
    lemma_digit_roundtrip((n / 100) % 10);
    lemma_digit_roundtrip((n / 10) % 10);
    lemma_digit_roundtrip(n % 10);
    assert((n / 1000) % 10 * 1000 + (n / 100) % 10 * 100 + (n / 10) % 10 * 10 + n % 10 == n)
        by (nonlinear_arith)
        requires
            0 <= n <= 9999,
    ;
}

pub fn digit_to_char(d: u32) -> (r: char)
    requires
        d <= 9,
    ensures
        r == digit_char(d as int),
{
    match d {
        0 => '0',
        1 => '1',
        2 => '2',
        3 => '3',
        4 => '4',
        5 => '5',
        6 => '6',
        7 => '7',
        8 => '8',
        _ => '9',
    }
}

pub fn char_to_digit(c: char) -> (r: Option<u32>)
    ensures
        match r {
            Some(d) => is_digit(c) && d == digit_val(c),
            None => !is_digit(c),
        },
{
    match c {
        '0' => Some(0),
        '1' => Some(1),
        '2' => Some(2),
        '3' => Some(3),
        '4' => Some(4),
        '5' => Some(5),
        '6' => Some(6),
        '7' => Some(7),
        '8' => Some(8),
        '9' => Some(9),
        _ => None,
    }
}

/// Pushes the two decimal digits of `n` (below 100) onto `out`.
pub fn push_2digits(out: &mut String, n: u32)
    ensures
        final(out)@ == old(out)@ + spec_fmt2(n as int),
{
    push_char(out, digit_to_char((n / 10) % 10));
    push_char(out, digit_to_char(n % 10));
    proof {
        assert(old(out)@.push(digit_char((n as int / 10) % 10)).push(digit_char(n as int % 10))
            =~= old(out)@ + spec_fmt2(n as int));
    }
}

/// Pushes the four decimal digits of `n` (below 10000) onto `out`.
pub fn push_4digits(out: &mut String, n: u32)
    ensures
        final(out)@ == old(out)@ + spec_fmt4(n as int),
{
    push_char(out, digit_to_char((n / 1000) % 10));
    push_char(out, digit_to_char((n / 100) % 10));
    push_char(out, digit_to_char((n / 10) % 10));
    push_char(out, digit_to_char(n % 10));
    proof {
        assert(old(out)@.push(digit_char((n as int / 1000) % 10)).push(
            digit_char((n as int / 100) % 10),
        ).push(digit_char((n as int / 10) % 10)).push(digit_char(n as int % 10)) =~= old(out)@
            + spec_fmt4(n as int));
    }
}

} // verus!
