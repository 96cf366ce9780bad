//! The textual form of a task document, and its grammar.
//!
//! A document is a `---`-fenced metadata header of `key: value` lines (list
//! fields as `- item` lines), an optional free-form body, and a `## Log`
//! section introduced by a `---` line; the log's text is kept verbatim.
//! Serializing and parsing are exact inverses on well-formed documents.
use crate::chars::is_trimmed;
use crate::chars::lemma_join_lines_concat;
use crate::chars::lemma_lines_term_concat;
use crate::chars::line_has_no_newline;
use crate::chars::push_char;
use crate::chars::spec_join_lines;
use crate::chars::spec_lines_term;
use crate::chars::spec_split_lines;
use crate::chars::spec_quoted;
use crate::chars::spec_starts_with;
use crate::chars::spec_trim;
use crate::chars::spec_unquoted;
use crate::chars::lemma_quoting_roundtrip;
use crate::chars::lemma_quoted_no_newline;
use crate::chars::quoted_string;
use crate::chars::unquote;
use crate::chars::join_range;
use crate::chars::split_lines;
use crate::chars::str_eq;
use crate::chars::str_starts_with;
use crate::chars::strip_prefix;
use crate::chars::sub_lines;
use crate::chars::trim;
use crate::id::TaskId;
use crate::task::spec_priority_of_name;
use crate::task::Priority;
use crate::task::Task;
use crate::task::TaskFrontmatter;
use crate::task::TaskView;
use crate::time::spec_parse_ts;
use crate::time::spec_render_ts;
use crate::time::Timestamp;
use vstd::prelude::*;
use vstd::string::StrSliceExecFns;
use vstd::string::StringExecFns;

verus! {

// ---------------------------------------------------------------------------
// The serialized form
// ---------------------------------------------------------------------------
/// A list field: nothing when empty, else its key line and one `- item`
/// line per element, each item quoted when it needs to be.
pub open spec fn spec_list_section(key: Seq<char>, items: Seq<Seq<char>>) -> Seq<Seq<char>> {
    if items.len() == 0 {
        Seq::<Seq<char>>::empty()
    } else {
        seq![key] + items.map_values(|x: Seq<char>| "- "@ + spec_quoted(x))
    }
}

/// An optional field: nothing when absent, else its single `key value`
/// line, the value quoted when it needs to be.
pub open spec fn spec_opt_line(key: Seq<char>, o: Option<Seq<char>>) -> Seq<Seq<char>> {
    match o {
        Some(v) => seq![key + spec_quoted(v)],
        None => Seq::<Seq<char>>::empty(),
    }
}

/// The header lines of a document, in their fixed order; empty collections
/// and absent options are omitted entirely. Free-text and identifier values
/// are quoted when they would otherwise read back differently; timestamps
/// and the priority never need it.
pub open spec fn spec_header_lines(t: TaskView) -> Seq<Seq<char>> {
    seq![
        "title: "@ + spec_quoted(t.title),
        "id: "@ + spec_quoted(t.id),
        "created: "@ + spec_render_ts(t.created),
        "updated: "@ + spec_render_ts(t.updated),
    ] + spec_opt_line("author: "@, t.author) + seq!["priority: "@ + t.priority.spec_name()]
        + spec_list_section("tags:"@, t.tags) + spec_list_section("blocked_by:"@, t.blocked_by)
        + spec_list_section("blocks:"@, t.blocks) + spec_opt_line("parent: "@, t.parent)
        + spec_list_section("children:"@, t.children)
}

/// The full serialized document: fenced header, body (blank-line padded when
/// present), then the log section marker and the log text verbatim.
pub open spec fn spec_to_markdown(t: TaskView) -> Seq<char> {
    "---\n"@ + spec_lines_term(spec_header_lines(t)) + "---\n"@ + (if t.body.len() == 0 {
        Seq::<char>::empty()
    } else {
        seq!['\n'] + t.body + seq!['\n']
    }) + "\n---\n## Log\n\n"@ + t.log
}

// ---------------------------------------------------------------------------
// The grammar, line-wise
// ---------------------------------------------------------------------------
/// Index of the first `---` line at or after `i`.
pub open spec fn sp_find_dash(ls: Seq<Seq<char>>, i: int) -> Option<int>
    decreases ls.len() - i,
{
    if i < 0 || i >= ls.len() {
        None
    } else if ls[i] == "---"@ {
        Some(i)
    } else {
        sp_find_dash(ls, i + 1)
    }
}

/// Whether a log-section marker sits at `i`: a `---` line directly followed
/// by a `## Log` heading.
pub open spec fn is_marker_at(ls: Seq<Seq<char>>, i: int) -> bool {
    0 <= i && i + 1 < ls.len() && ls[i] == "---"@ && spec_starts_with(ls[i + 1], "## Log"@)
}

/// Index of the first log-section marker at or after `i`.
pub open spec fn sp_find_marker(ls: Seq<Seq<char>>, i: int) -> Option<int>
    decreases ls.len() - i,
{
    if i < 0 || i >= ls.len() {
        None
    } else if is_marker_at(ls, i) {
        Some(i)
    } else {
        sp_find_marker(ls, i + 1)
    }
}

/// Index of the first bare `## Log` heading at or after `i`.
pub open spec fn sp_find_heading(ls: Seq<Seq<char>>, i: int) -> Option<int>
    decreases ls.len() - i,
{
    if i < 0 || i >= ls.len() {
        None
    } else if spec_starts_with(ls[i], "## Log"@) {
        Some(i)
    } else {
        sp_find_heading(ls, i + 1)
    }
}

/// The rest of the line after `key`, when the line starts with `key`.
pub open spec fn sp_strip(l: Seq<char>, key: Seq<char>) -> Option<Seq<char>> {
    if spec_starts_with(l, key) {
        Some(l.subrange(key.len() as int, l.len() as int))
    } else {
        None
    }
}

/// An optional `key value` line at the cursor: its value, unquoted, and
/// the new cursor.
pub open spec fn sp_opt(h: Seq<Seq<char>>, i: int, key: Seq<char>) -> (Option<Seq<char>>, int) {
    if 0 <= i < h.len() && spec_starts_with(h[i], key) {
        (Some(spec_unquoted(h[i].subrange(key.len() as int, h[i].len() as int))), i + 1)
    } else {
        (None, i)
    }
}

/// The `- item` lines at the cursor: their items, unquoted, and the new
/// cursor.
pub open spec fn sp_items(h: Seq<Seq<char>>, i: int) -> (Seq<Seq<char>>, int)
    decreases h.len() - i,
{
    if 0 <= i < h.len() && spec_starts_with(h[i], "- "@) {
        let r = sp_items(h, i + 1);
        (seq![spec_unquoted(h[i].subrange(2, h[i].len() as int))] + r.0, r.1)
    } else {
        (Seq::<Seq<char>>::empty(), i)
    }
}

/// A list field at the cursor: nothing unless its key line is present.
pub open spec fn sp_list(h: Seq<Seq<char>>, i: int, key: Seq<char>) -> (Seq<Seq<char>>, int) {
    if 0 <= i < h.len() && h[i] == key {
        sp_items(h, i + 1)
    } else {
        (Seq::<Seq<char>>::empty(), i)
    }
}

/// The spec-level value of a parsed header.
#[verifier::ext_equal]
pub struct HeaderView {
    pub title: Seq<char>,
    pub id: Seq<char>,
    pub created: Timestamp,
    pub updated: Timestamp,
    pub author: Option<Seq<char>>,
    pub priority: Priority,
    pub tags: Seq<Seq<char>>,
    pub blocked_by: Seq<Seq<char>>,
    pub blocks: Seq<Seq<char>>,
    pub parent: Option<Seq<char>>,
    pub children: Seq<Seq<char>>,
}

/// What a header denotes: its fields read in their fixed order, with
/// optional fields possibly absent, and nothing left over.
pub open spec fn spec_parse_header(h: Seq<Seq<char>>) -> Option<HeaderView> {
    if h.len() < 4 {
        None
    } else {
        match sp_strip(h[0], "title: "@) {
            None => None,
            Some(title_raw) => match sp_strip(h[1], "id: "@) {
                None => None,
                Some(id_raw) => match sp_strip(h[2], "created: "@) {
                    None => None,
                    Some(cts) => match spec_parse_ts(spec_unquoted(cts)) {
                        None => None,
                        Some(created) => match sp_strip(h[3], "updated: "@) {
                            None => None,
                            Some(uts) => match spec_parse_ts(spec_unquoted(uts)) {
                                None => None,
                                Some(updated) => {
                                    let ar = sp_opt(h, 4, "author: "@);
                                    if ar.1 >= h.len() {
                                        None
                                    } else {
                                        match sp_strip(h[ar.1], "priority: "@) {
                                            None => None,
                                            Some(pn) => match spec_priority_of_name(
                                                spec_unquoted(pn),
                                            ) {
                                                None => None,
                                                Some(priority) => {
                                                    let tg = sp_list(h, ar.1 + 1, "tags:"@);
                                                    let bb = sp_list(h, tg.1, "blocked_by:"@);
                                                    let bk = sp_list(h, bb.1, "blocks:"@);
                                                    let pr = sp_opt(h, bk.1, "parent: "@);
                                                    let ch = sp_list(h, pr.1, "children:"@);
                                                    if ch.1 == h.len() {
                                                        Some(
                                                            HeaderView {
                                                                title: spec_unquoted(title_raw),
                                                                id: spec_unquoted(id_raw),
                                                                created,
                                                                updated,
                                                                author: ar.0,
                                                                priority,
                                                                tags: tg.0,
                                                                blocked_by: bb.0,
                                                                blocks: bk.0,
                                                                parent: pr.0,
                                                                children: ch.0,
                                                            },
                                                        )
                                                    } else {
                                                        None
                                                    }
                                                },
                                            },
                                        }
                                    }
                                },
                            },
                        },
                    },
                },
            },
        }
    }
}

/// The log text of the region after the heading: the single blank line that
/// the serializer writes after `## Log` is dropped, the rest joined verbatim.
pub open spec fn sp_log_join(region: Seq<Seq<char>>) -> Seq<char> {
    if region.len() > 0 && region[0] == Seq::<char>::empty() {
        spec_join_lines(region.drop_first())
    } else {
        spec_join_lines(region)
    }
}

/// Body and log of the lines following the header: split at the first
/// log-section marker; a bare `## Log` heading is honored for hand-edited
/// files; with no heading at all, everything is body and the log is empty.
pub open spec fn spec_body_log(rest: Seq<Seq<char>>) -> (Seq<char>, Seq<char>) {
    match sp_find_marker(rest, 0) {
        Some(j) => (
            spec_trim(spec_join_lines(rest.subrange(0, j))),
            sp_log_join(rest.subrange(j + 2, rest.len() as int)),
        ),
        None => match sp_find_heading(rest, 0) {
            Some(k) => (
                spec_trim(spec_join_lines(rest.subrange(0, k))),
                sp_log_join(rest.subrange(k + 1, rest.len() as int)),
            ),
            None => (spec_trim(spec_join_lines(rest)), Seq::<char>::empty()),
        },
    }
}

/// What a whole document text denotes, if anything: a fenced header that
/// parses, and the remainder divided into body and log.
pub open spec fn spec_parse(s: Seq<char>) -> Option<TaskView> {
    let ls = spec_split_lines(s);
    if ls.len() < 1 || ls[0] != "---"@ {
        None
    } else {
        match sp_find_dash(ls, 1) {
            None => None,
            Some(e) => match spec_parse_header(ls.subrange(1, e)) {
                None => None,
                Some(h) => {
                    let bl = spec_body_log(ls.subrange(e + 1, ls.len() as int));
                    Some(
                        TaskView {
                            title: h.title,
                            id: h.id,
                            created: h.created,
                            updated: h.updated,
                            author: h.author,
                            priority: h.priority,
                            tags: h.tags,
                            blocked_by: h.blocked_by,
                            blocks: h.blocks,
                            parent: h.parent,
                            children: h.children,
                            body: bl.0,
                            log: bl.1,
                        },
                    )
                },
            },
        }
    }
}

// ---------------------------------------------------------------------------
// Executable serializer
// ---------------------------------------------------------------------------
fn push_kv_line(out: &mut String, key: &str, val: &str)
    ensures
        final(out)@ == old(out)@ + spec_lines_term(seq![key@ + val@]),
{
    out.append(key);
    out.append(val);
    push_char(out, '\n');
    proof {
        lemma_lines_term_single(key@ + val@);
        assert(out@ =~= old(out)@ + (key@ + val@ + seq!['\n']));
    }
}

fn push_opt_line(out: &mut String, key: &str, o: &Option<String>)
    ensures
        final(out)@ == old(out)@ + spec_lines_term(
            spec_opt_line(key@, o.deep_view()),
        ),
{
    match o {
        Some(v) => {
            let q = quoted_string(v.as_str());
            push_kv_line(out, key, q.as_str());
            proof {
                lemma_lines_term_single(key@ + spec_quoted(v@));
            }
        },
        None => {
            proof {
                assert(spec_lines_term(spec_opt_line(key@, o.deep_view())) =~= Seq::<
                    char,
                >::empty());
                assert(out@ =~= old(out)@ + Seq::<char>::empty());
            }
        },
    }
}

fn push_opt_id_line(out: &mut String, key: &str, o: &Option<TaskId>)
    ensures
        final(out)@ == old(out)@ + spec_lines_term(
            spec_opt_line(key@, o.deep_view()),
        ),
{
    match o {
        Some(v) => {
            let q = quoted_string(v.full());
            push_kv_line(out, key, q.as_str());
            proof {
                lemma_lines_term_single(key@ + spec_quoted(v@));
            }
        },
        None => {
            proof {
                assert(spec_lines_term(spec_opt_line(key@, o.deep_view())) =~= Seq::<
                    char,
                >::empty());
                assert(out@ =~= old(out)@ + Seq::<char>::empty());
            }
        },
    }
}

proof fn lemma_lines_term_single(x: Seq<char>)
    ensures
        spec_lines_term(seq![x]) == x + seq!['\n'],
{
    assert(seq![x].drop_first() =~= Seq::<Seq<char>>::empty());
    assert(seq![x][0] == x);
    assert(spec_lines_term(Seq::<Seq<char>>::empty()) == Seq::<char>::empty());
    assert(spec_lines_term(seq![x]) == x + seq!['\n'] + Seq::<char>::empty());
    assert(x + seq!['\n'] + Seq::<char>::empty() =~= x + seq!['\n']);
}

proof fn lemma_lines_term_push(a: Seq<Seq<char>>, x: Seq<char>)
    ensures
        spec_lines_term(a.push(x)) == spec_lines_term(a) + x + seq!['\n'],
{
    lemma_lines_term_concat(a, seq![x]);
    assert(a.push(x) =~= a + seq![x]);
    lemma_lines_term_single(x);
    assert(spec_lines_term(a) + (x + seq!['\n']) =~= spec_lines_term(a) + x + seq!['\n']);
}

fn push_section(out: &mut String, key: &str, items: &Vec<String>)
    ensures
        final(out)@ == old(out)@ + spec_lines_term(
            spec_list_section(key@, items.deep_view()),
        ),
{
    let ghost f = |x: Seq<char>| "- "@ + x;
    if items.len() == 0 {
        proof {
            assert(spec_lines_term(spec_list_section(key@, items.deep_view())) =~= Seq::<
                char,
            >::empty());
            assert(out@ =~= old(out)@ + Seq::<char>::empty());
        }
        return ;
    }
    out.append(key);
    push_char(out, '\n');
    proof {
        lemma_lines_term_single(key@);
        assert(seq![key@] + items.deep_view().subrange(0, 0).map_values(
            |x: Seq<char>| "- "@ + spec_quoted(x),
        ) =~= seq![key@]);
        assert(out@ =~= old(out)@ + spec_lines_term(seq![key@]));
    }
    let mut i: usize = 0;
    while i < items.len()
        invariant
            i <= items@.len(),
            items@.len() >= 1,
            out@ == old(out)@ + spec_lines_term(
                seq![key@] + items.deep_view().subrange(0, i as int).map_values(
                    |x: Seq<char>| "- "@ + spec_quoted(x),
                ),
            ),
        decreases items@.len() - i,
    {
        let ghost pre_lines = seq![key@] + items.deep_view().subrange(0, i as int).map_values(
            |x: Seq<char>| "- "@ + spec_quoted(x),
        );
        out.append("- ");
        let q = quoted_string(items[i].as_str());
        out.append(q.as_str());
        push_char(out, '\n');
        proof {
            reveal_strlit("- ");
            let item = items.deep_view()[i as int];
            lemma_lines_term_push(pre_lines, "- "@ + spec_quoted(item));
            assert(seq![key@] + items.deep_view().subrange(0, i + 1).map_values(
                |x: Seq<char>| "- "@ + spec_quoted(x),
            ) =~= pre_lines.push("- "@ + spec_quoted(item)));
            assert(items.deep_view()[i as int] == items@[i as int]@);
            assert(out@ =~= old(out)@ + spec_lines_term(pre_lines.push("- "@ + spec_quoted(
                item,
            ))));
        }
        i = i + 1;
    }
    proof {
        assert(items.deep_view().subrange(0, items.deep_view().len() as int)
            =~= items.deep_view());
    }
}

fn push_section_ids(out: &mut String, key: &str, items: &Vec<TaskId>)
    ensures
        final(out)@ == old(out)@ + spec_lines_term(
            spec_list_section(key@, items.deep_view()),
        ),
{
    if items.len() == 0 {
        proof {
            assert(spec_lines_term(spec_list_section(key@, items.deep_view())) =~= Seq::<
                char,
            >::empty());
            assert(out@ =~= old(out)@ + Seq::<char>::empty());
        }
        return ;
    }
    out.append(key);
    push_char(out, '\n');
    proof {
        lemma_lines_term_single(key@);
        assert(seq![key@] + items.deep_view().subrange(0, 0).map_values(
            |x: Seq<char>| "- "@ + spec_quoted(x),
        ) =~= seq![key@]);
        assert(out@ =~= old(out)@ + spec_lines_term(seq![key@]));
    }
    let mut i: usize = 0;
    while i < items.len()
        invariant
            i <= items@.len(),
            items@.len() >= 1,
            out@ == old(out)@ + spec_lines_term(
                seq![key@] + items.deep_view().subrange(0, i as int).map_values(
                    |x: Seq<char>| "- "@ + spec_quoted(x),
                ),
            ),
        decreases items@.len() - i,
    {
        let ghost pre_lines = seq![key@] + items.deep_view().subrange(0, i as int).map_values(
            |x: Seq<char>| "- "@ + spec_quoted(x),
        );
        out.append("- ");
        let q = quoted_string(items[i].full());
        out.append(q.as_str());
        push_char(out, '\n');
        proof {
            reveal_strlit("- ");
            let item = items.deep_view()[i as int];
            lemma_lines_term_push(pre_lines, "- "@ + spec_quoted(item));
            assert(seq![key@] + items.deep_view().subrange(0, i + 1).map_values(
                |x: Seq<char>| "- "@ + spec_quoted(x),
            ) =~= pre_lines.push("- "@ + spec_quoted(item)));
            assert(items.deep_view()[i as int] == items@[i as int]@);
            assert(out@ =~= old(out)@ + spec_lines_term(pre_lines.push("- "@ + spec_quoted(
                item,
            ))));
        }
        i = i + 1;
    }
    proof {
        assert(items.deep_view().subrange(0, items.deep_view().len() as int)
            =~= items.deep_view());
    }
}

/// The newline-terminated header text decomposes into its sections.
proof fn lemma_header_lines_term(tv: TaskView)
    ensures
        spec_lines_term(spec_header_lines(tv)) == spec_lines_term(
            seq!["title: "@ + spec_quoted(tv.title)],
        ) + spec_lines_term(seq!["id: "@ + spec_quoted(tv.id)]) + spec_lines_term(
            seq!["created: "@ + spec_render_ts(tv.created)],
        ) + spec_lines_term(seq!["updated: "@ + spec_render_ts(tv.updated)]) + spec_lines_term(
            spec_opt_line("author: "@, tv.author),
        ) + spec_lines_term(seq!["priority: "@ + tv.priority.spec_name()]) + spec_lines_term(
            spec_list_section("tags:"@, tv.tags),
        ) + spec_lines_term(spec_list_section("blocked_by:"@, tv.blocked_by)) + spec_lines_term(
            spec_list_section("blocks:"@, tv.blocks),
        ) + spec_lines_term(spec_opt_line("parent: "@, tv.parent)) + spec_lines_term(
            spec_list_section("children:"@, tv.children),
        ),
{
    let la = seq!["title: "@ + spec_quoted(tv.title)];
    let lb = seq!["id: "@ + spec_quoted(tv.id)];
    let lc = seq!["created: "@ + spec_render_ts(tv.created)];
    let ld = seq!["updated: "@ + spec_render_ts(tv.updated)];
    let sa = spec_opt_line("author: "@, tv.author);
    let sp = seq!["priority: "@ + tv.priority.spec_name()];
    let stg = spec_list_section("tags:"@, tv.tags);
    let sbb = spec_list_section("blocked_by:"@, tv.blocked_by);
    let sbk = spec_list_section("blocks:"@, tv.blocks);
    let spr = spec_opt_line("parent: "@, tv.parent);
    let sch = spec_list_section("children:"@, tv.children);
    assert(spec_header_lines(tv) =~= la + lb + lc + ld + sa + sp + stg + sbb + sbk + spr + sch);
    lemma_lines_term_concat(la, lb);
    lemma_lines_term_concat(la + lb, lc);
    lemma_lines_term_concat(la + lb + lc, ld);
    lemma_lines_term_concat(la + lb + lc + ld, sa);
    lemma_lines_term_concat(la + lb + lc + ld + sa, sp);
    lemma_lines_term_concat(la + lb + lc + ld + sa + sp, stg);
    lemma_lines_term_concat(la + lb + lc + ld + sa + sp + stg, sbb);
    lemma_lines_term_concat(la + lb + lc + ld + sa + sp + stg + sbb, sbk);
    lemma_lines_term_concat(la + lb + lc + ld + sa + sp + stg + sbb + sbk, spr);
    lemma_lines_term_concat(la + lb + lc + ld + sa + sp + stg + sbb + sbk + spr, sch);
}

impl Task {
    /// Serializes the task to its on-disk text.
    #[verifier::rlimit(100)]
    pub fn to_markdown(&self) -> (r: String)
        ensures
            r@ == spec_to_markdown(self@),
    {
        let t = Ghost(self@);
        let mut out = String::from_str("---\n");
        let ghost h0 = out@;
        let qt = quoted_string(self.frontmatter.title.as_str());
        push_kv_line(&mut out, "title: ", qt.as_str());
        let qi = quoted_string(self.frontmatter.id.full());
        push_kv_line(&mut out, "id: ", qi.as_str());
        let cs = self.frontmatter.created.render();
        push_kv_line(&mut out, "created: ", cs.as_str());
        let us = self.frontmatter.updated.render();
        push_kv_line(&mut out, "updated: ", us.as_str());
        push_opt_line(&mut out, "author: ", &self.frontmatter.author);
        push_kv_line(&mut out, "priority: ", self.frontmatter.priority.name());
        push_section(&mut out, "tags:", &self.frontmatter.tags);
        push_section_ids(&mut out, "blocked_by:", &self.frontmatter.blocked_by);
        push_section_ids(&mut out, "blocks:", &self.frontmatter.blocks);
        push_opt_id_line(&mut out, "parent: ", &self.frontmatter.parent);
        push_section_ids(&mut out, "children:", &self.frontmatter.children);
        proof {
            lemma_header_lines_term(t@);
            assert(out@ =~= h0 + spec_lines_term(spec_header_lines(t@)));
        }
        out.append("---\n");
        if self.body.unicode_len() > 0 {
            push_char(&mut out, '\n');
            out.append(self.body.as_str());
            push_char(&mut out, '\n');
        }
        out.append("\n---\n## Log\n\n");
        out.append(self.log.as_str());
        proof {
            assert(out@ =~= spec_to_markdown(t@));
        }
        out
    }
}

// ---------------------------------------------------------------------------
// Executable parser
// ---------------------------------------------------------------------------
proof fn lemma_find_dash_some(ls: Seq<Seq<char>>, from: int, p: int)
    requires
        0 <= from <= p < ls.len(),
        ls[p] == "---"@,
        forall|j: int| from <= j < p ==> ls[j] != "---"@,
    ensures
        sp_find_dash(ls, from) == Some(p),
    decreases p - from,
{
    if from < p {
        lemma_find_dash_some(ls, from + 1, p);
    }
}

proof fn lemma_find_dash_none(ls: Seq<Seq<char>>, from: int)
    requires
        0 <= from,
        forall|j: int| from <= j < ls.len() ==> ls[j] != "---"@,
    ensures
        sp_find_dash(ls, from) is None,
    decreases ls.len() - from,
{
    if from < ls.len() {
        lemma_find_dash_none(ls, from + 1);
    }
}

proof fn lemma_find_marker_some(ls: Seq<Seq<char>>, from: int, p: int)
    requires
        0 <= from <= p < ls.len(),
        is_marker_at(ls, p),
        forall|j: int| from <= j < p ==> !is_marker_at(ls, j),
    ensures
        sp_find_marker(ls, from) == Some(p),
    decreases p - from,
{
    if from < p {
        lemma_find_marker_some(ls, from + 1, p);
    }
}

proof fn lemma_find_marker_none(ls: Seq<Seq<char>>, from: int)
    requires
        0 <= from,
        forall|j: int| from <= j < ls.len() ==> !is_marker_at(ls, j),
    ensures
        sp_find_marker(ls, from) is None,
    decreases ls.len() - from,
{
    if from < ls.len() {
        lemma_find_marker_none(ls, from + 1);
    }
}

proof fn lemma_find_heading_some(ls: Seq<Seq<char>>, from: int, p: int)
    requires
        0 <= from <= p < ls.len(),
        spec_starts_with(ls[p], "## Log"@),
        forall|j: int| from <= j < p ==> !spec_starts_with(ls[j], "## Log"@),
    ensures
        sp_find_heading(ls, from) == Some(p),
    decreases p - from,
{
    if from < p {
        lemma_find_heading_some(ls, from + 1, p);
    }
}

proof fn lemma_find_heading_none(ls: Seq<Seq<char>>, from: int)
    requires
        0 <= from,
        forall|j: int| from <= j < ls.len() ==> !spec_starts_with(ls[j], "## Log"@),
    ensures
        sp_find_heading(ls, from) is None,
    decreases ls.len() - from,
{
    if from < ls.len() {
        lemma_find_heading_none(ls, from + 1);
    }
}

fn find_dash_from(lines: &Vec<String>, from: usize) -> (r: Option<usize>)
    requires
        from <= lines@.len(),
    ensures
        match r {
            Some(p) => from <= p < lines@.len() && sp_find_dash(lines.deep_view(), from as int)
                == Some(p as int),
            None => sp_find_dash(lines.deep_view(), from as int) is None,
        },
{
    let mut i = from;
    while i < lines.len()
        invariant
            from <= i <= lines@.len(),
            forall|j: int| from <= j < i ==> lines.deep_view()[j] != "---"@,
        decreases lines@.len() - i,
    {
        if str_eq(lines[i].as_str(), "---") {
            proof {
                assert(lines.deep_view()[i as int] == lines@[i as int]@);
                lemma_find_dash_some(lines.deep_view(), from as int, i as int);
            }
            return Some(i);
        }
        proof {
            assert(lines.deep_view()[i as int] == lines@[i as int]@);
        }
        i = i + 1;
    }
    proof {
        lemma_find_dash_none(lines.deep_view(), from as int);
    }
    None
}

fn find_marker_from(lines: &Vec<String>, from: usize) -> (r: Option<usize>)
    requires
        from <= lines@.len(),
    ensures
        match r {
            Some(p) => from <= p < lines@.len() && is_marker_at(lines.deep_view(), p as int)
                && sp_find_marker(lines.deep_view(), from as int) == Some(p as int),
            None => sp_find_marker(lines.deep_view(), from as int) is None,
        },
{
    let mut i = from;
    while i < lines.len()
        invariant
            from <= i <= lines@.len(),
            forall|j: int| from <= j < i ==> !is_marker_at(lines.deep_view(), j),
        decreases lines@.len() - i,
    {
        proof {
            assert(lines.deep_view()[i as int] == lines@[i as int]@);
        }
        if str_eq(lines[i].as_str(), "---") && i + 1 < lines.len() && str_starts_with(
            lines[i + 1].as_str(),
            "## Log",
        ) {
            proof {
                assert(lines.deep_view()[i + 1] == lines@[i + 1]@);
                assert(is_marker_at(lines.deep_view(), i as int));
                lemma_find_marker_some(lines.deep_view(), from as int, i as int);
            }
            return Some(i);
        }
        proof {
            if i + 1 < lines@.len() {
                assert(lines.deep_view()[i + 1] == lines@[i + 1]@);
            }
            assert(!is_marker_at(lines.deep_view(), i as int));
        }
        i = i + 1;
    }
    proof {
        lemma_find_marker_none(lines.deep_view(), from as int);
    }
    None
}

fn find_heading_from(lines: &Vec<String>, from: usize) -> (r: Option<usize>)
    requires
        from <= lines@.len(),
    ensures
        match r {
            Some(p) => from <= p < lines@.len() && sp_find_heading(
                lines.deep_view(),
                from as int,
            ) == Some(p as int),
            None => sp_find_heading(lines.deep_view(), from as int) is None,
        },
{
    let mut i = from;
    while i < lines.len()
        invariant
            from <= i <= lines@.len(),
            forall|j: int|
                from <= j < i ==> !spec_starts_with(#[trigger] lines.deep_view()[j], "## Log"@),
        decreases lines@.len() - i,
    {
        proof {
            assert(lines.deep_view()[i as int] == lines@[i as int]@);
        }
        if str_starts_with(lines[i].as_str(), "## Log") {
            proof {
                lemma_find_heading_some(lines.deep_view(), from as int, i as int);
            }
            return Some(i);
        }
        i = i + 1;
    }
    proof {
        lemma_find_heading_none(lines.deep_view(), from as int);
    }
    None
}

/// Reads the `- item` lines at the cursor into items.
fn parse_items(h: &Vec<String>, start: usize) -> (r: (Vec<String>, usize))
    requires
        start <= h@.len(),
    ensures
        r.0.deep_view() == sp_items(h.deep_view(), start as int).0,
        r.1 == sp_items(h.deep_view(), start as int).1,
        start <= r.1 <= h@.len(),
{
    let mut out: Vec<String> = Vec::new();
    let mut k = start;
    while k < h.len() && str_starts_with(h[k].as_str(), "- ")
        invariant
            start <= k <= h@.len(),
            sp_items(h.deep_view(), start as int).0 == out.deep_view() + sp_items(
                h.deep_view(),
                k as int,
            ).0,
            sp_items(h.deep_view(), start as int).1 == sp_items(h.deep_view(), k as int).1,
        decreases h@.len() - k,
    {
        let ghost pre = out.deep_view();
        let ghost hv = h.deep_view();
        proof {
            assert(hv[k as int] == h@[k as int]@);
            reveal_strlit("- ");
        }
        let item = unquote(h[k].as_str().substring_char(2, h[k].as_str().unicode_len()));
        out.push(String::from_str(item));
        proof {
            let it = spec_unquoted(hv[k as int].subrange(2, hv[k as int].len() as int));
            assert(out.deep_view() =~= pre.push(it));
            assert(sp_items(hv, k as int).0 =~= seq![it] + sp_items(hv, k + 1).0);
            assert(pre.push(it) + sp_items(hv, k + 1).0 =~= pre + (seq![it] + sp_items(
                hv,
                k + 1,
            ).0));
        }
        k = k + 1;
    }
    proof {
        let hv = h.deep_view();
        if k < h@.len() {
            assert(hv[k as int] == h@[k as int]@);
        }
        assert(sp_items(hv, k as int).0 =~= Seq::<Seq<char>>::empty());
        assert(out.deep_view() + Seq::<Seq<char>>::empty() =~= out.deep_view());
    }
    (out, k)
}

/// Reads a list field at the cursor, if its key line is present.
fn parse_list(h: &Vec<String>, at: usize, key: &str) -> (r: (Vec<String>, usize))
    requires
        at <= h@.len(),
    ensures
        r.0.deep_view() == sp_list(h.deep_view(), at as int, key@).0,
        r.1 == sp_list(h.deep_view(), at as int, key@).1,
        at <= r.1 <= h@.len(),
{
    if at < h.len() && str_eq(h[at].as_str(), key) {
        proof {
            assert(h.deep_view()[at as int] == h@[at as int]@);
        }
        parse_items(h, at + 1)
    } else {
        proof {
            if at < h@.len() {
                assert(h.deep_view()[at as int] == h@[at as int]@);
            }
        }
        (Vec::new(), at)
    }
}

/// Reads an optional `key value` line at the cursor.
fn parse_opt(h: &Vec<String>, at: usize, key: &str) -> (r: (Option<String>, usize))
    requires
        at <= h@.len(),
    ensures
        r.0.deep_view() == sp_opt(h.deep_view(), at as int, key@).0,
        r.1 == sp_opt(h.deep_view(), at as int, key@).1,
        at <= r.1 <= h@.len(),
{
    if at < h.len() {
        proof {
            assert(h.deep_view()[at as int] == h@[at as int]@);
        }
        match strip_prefix(h[at].as_str(), key) {
            Some(v) => (Some(String::from_str(unquote(v))), at + 1),
            None => (None, at),
        }
    } else {
        (None, at)
    }
}

fn ids_of(items: Vec<String>) -> (r: Vec<TaskId>)
    ensures
        r.deep_view() == items.deep_view(),
{
    let mut out: Vec<TaskId> = Vec::new();
    let mut i: usize = 0;
    while i < items.len()
        invariant
            i <= items@.len(),
            out@.len() == i,
            forall|j: int| 0 <= j < i ==> (#[trigger] out@[j])@ == items@[j]@,
        decreases items@.len() - i,
    {
        out.push(TaskId::from_string(items[i].as_str()));
        i = i + 1;
    }
    proof {
        assert forall|j: int| 0 <= j < items@.len() implies out.deep_view()[j]
            == items.deep_view()[j] by {
            assert(out@[j]@ == items@[j]@);
        }
        assert(out.deep_view() =~= items.deep_view());
    }
    out
}

/// Reads the metadata header from its lines.
fn parse_header(h: &Vec<String>) -> (r: Option<TaskFrontmatter>)
    ensures
        match r {
            Some(fm) => spec_parse_header(h.deep_view()) == Some(
                HeaderView {
                    title: fm.title@,
                    id: fm.id@,
                    created: fm.created,
                    updated: fm.updated,
                    author: fm.author.deep_view(),
                    priority: fm.priority,
                    tags: fm.tags.deep_view(),
                    blocked_by: fm.blocked_by.deep_view(),
                    blocks: fm.blocks.deep_view(),
                    parent: fm.parent.deep_view(),
                    children: fm.children.deep_view(),
                },
            ),
            None => spec_parse_header(h.deep_view()) is None,
        },
{
    let ghost hv = h.deep_view();
    if h.len() < 4 {
        return None;
    }
    proof {
        assert(hv[0] == h@[0]@);
        assert(hv[1] == h@[1]@);
        assert(hv[2] == h@[2]@);
        assert(hv[3] == h@[3]@);
    }
    let title = match strip_prefix(h[0].as_str(), "title: ") {
        Some(v) => v,
        None => { return None },
    };
    let id = match strip_prefix(h[1].as_str(), "id: ") {
        Some(v) => v,
        None => { return None },
    };
    let cts = match strip_prefix(h[2].as_str(), "created: ") {
        Some(v) => v,
        None => { return None },
    };
    let created = match Timestamp::parse(unquote(cts)) {
        Some(v) => v,
        None => { return None },
    };
    let uts = match strip_prefix(h[3].as_str(), "updated: ") {
        Some(v) => v,
        None => { return None },
    };
    let updated = match Timestamp::parse(unquote(uts)) {
        Some(v) => v,
        None => { return None },
    };
    let (author, i1) = parse_opt(h, 4, "author: ");
    if i1 >= h.len() {
        return None;
    }
    proof {
        assert(hv[i1 as int] == h@[i1 as int]@);
    }
    let pn = match strip_prefix(h[i1].as_str(), "priority: ") {
        Some(v) => v,
        None => { return None },
    };
    let priority = match Priority::from_name(unquote(pn)) {
        Some(v) => v,
        None => { return None },
    };
    let (tags, i2) = parse_list(h, i1 + 1, "tags:");
    let (blocked_by, i3) = parse_list(h, i2, "blocked_by:");
    let (blocks, i4) = parse_list(h, i3, "blocks:");
    let (parent, i5) = parse_opt(h, i4, "parent: ");
    let (children, i6) = parse_list(h, i5, "children:");
    if i6 != h.len() {
        return None;
    }
    let fm = TaskFrontmatter {
        title: String::from_str(unquote(title)),
        id: TaskId::from_string(unquote(id)),
        created,
        updated,
        author,
        priority,
        tags,
        blocked_by: ids_of(blocked_by),
        blocks: ids_of(blocks),
        parent: match parent {
            Some(p) => Some(TaskId::from_string(p.as_str())),
            None => None,
        },
        children: ids_of(children),
    };
    proof {
        assert(fm.parent.deep_view() == sp_opt(hv, i4 as int, "parent: "@).0);
    }
    Some(fm)
}

impl Task {
    /// Reads a task document back from its on-disk text. The header must be
    /// present and well formed; a file without a log section still parses,
    /// with the whole remainder as body and an empty log.
    pub fn parse(content: &str) -> (r: Result<Task, String>)
        ensures
            match r {
                Ok(t) => spec_parse(content@) == Some(t@),
                Err(_) => spec_parse(content@) is None,
            },
    {
        let lines = split_lines(content);
        let ghost ls = spec_split_lines(content@);
        proof {
            crate::chars::lemma_split_lines_len(content@);
            assert(lines@.len() == ls.len());
            assert(lines.deep_view()[0] == lines@[0]@);
        }
        if !str_eq(lines[0].as_str(), "---") {
            return Err(String::from_str("Invalid task format: missing metadata header"));
        }
        let e = match find_dash_from(&lines, 1) {
            Some(e) => e,
            None => {
                return Err(String::from_str("Invalid task format: unterminated metadata header"));
            },
        };
        let hdr = sub_lines(&lines, 1, e);
        let fm = match parse_header(&hdr) {
            Some(fm) => fm,
            None => { return Err(String::from_str("Failed to parse metadata header")) },
        };
        let rest = sub_lines(&lines, e + 1, lines.len());
        let ghost rv = ls.subrange(e + 1, ls.len() as int);
        let n = rest.len();
        let (body, log) = match find_marker_from(&rest, 0) {
            Some(j) => {
                let joined = join_range(&rest, 0, j);
                let body = String::from_str(trim(joined.as_str()));
                let log = read_log_region(&rest, j + 2);
                (body, log)
            },
            None => {
                match find_heading_from(&rest, 0) {
                    Some(k) => {
                        let joined = join_range(&rest, 0, k);
                        let body = String::from_str(trim(joined.as_str()));
                        let log = read_log_region(&rest, k + 1);
                        (body, log)
                    },
                    None => {
                        let joined = join_range(&rest, 0, n);
                        proof {
                            assert(rv.subrange(0, rv.len() as int) =~= rv);
                        }
                        (String::from_str(trim(joined.as_str())), String::new())
                    },
                }
            },
        };
        let t = Task { frontmatter: fm, body, log };
        proof {
            let parsed = spec_parse(content@);
            assert(parsed == Some(t@)) by {
                assert(ls.subrange(1, e as int) == hdr.deep_view());
                assert(spec_body_log(rv) == (t@.body, t@.log));
                assert(parsed is Some);
                assert(parsed.unwrap() =~= t@);
            }
        }
        Ok(t)
    }
}

/// The log text from the lines at and after `start`: one leading blank line
/// is dropped, the remainder joined back verbatim.
fn read_log_region(rest: &Vec<String>, start: usize) -> (r: String)
    requires
        start <= rest@.len(),
    ensures
        r@ == sp_log_join(rest.deep_view().subrange(start as int, rest@.len() as int)),
{
    let ghost region = rest.deep_view().subrange(start as int, rest@.len() as int);
    let n = rest.len();
    if start < n && rest[start].as_str().unicode_len() == 0 {
        proof {
            assert(region[0] == rest@[start as int]@);
            assert(region[0] =~= Seq::<char>::empty());
            assert(region.drop_first() =~= rest.deep_view().subrange(
                start + 1,
                rest@.len() as int,
            ));
        }
        join_range(rest, start + 1, n)
    } else {
        proof {
            if start < rest@.len() {
                assert(region[0] == rest@[start as int]@);
            }
        }
        join_range(rest, start, n)
    }
}

// ---------------------------------------------------------------------------
// The round-trip law
// ---------------------------------------------------------------------------
/// A line that can sit in the header: single-line, and not a `---` fence.
proof fn lemma_kv_good(key: Seq<char>, val: Seq<char>)
    requires
        key.len() >= 1,
        key[0] != '-',
        line_has_no_newline(key),
        line_has_no_newline(val),
    ensures
        line_has_no_newline(key + val),
        key + val != "---"@,
{
    reveal_strlit("---");
    assert forall|i: int| 0 <= i < (key + val).len() implies (key + val)[i] != '\n' by {
        if i < key.len() {
            assert((key + val)[i] == key[i]);
        } else {
            assert((key + val)[i] == val[i - key.len()]);
        }
    }
    if key + val == "---"@ {
        assert((key + val)[0] == key[0]);
        assert("---"@[0] == '-');
    }
}

proof fn lemma_key_facts()
    ensures
        line_has_no_newline("title: "@) && "title: "@[0] == 't' && "title: "@.len() == 7,
        line_has_no_newline("id: "@) && "id: "@[0] == 'i' && "id: "@.len() == 4,
        line_has_no_newline("created: "@) && "created: "@[0] == 'c' && "created: "@.len() == 9,
        line_has_no_newline("updated: "@) && "updated: "@[0] == 'u' && "updated: "@.len() == 9,
        line_has_no_newline("author: "@) && "author: "@[0] == 'a' && "author: "@.len() == 8,
        line_has_no_newline("priority: "@) && "priority: "@[0] == 'p' && "priority: "@.len()
            == 10,
        line_has_no_newline("tags:"@) && "tags:"@[0] == 't' && "tags:"@.len() == 5,
        line_has_no_newline("blocked_by:"@) && "blocked_by:"@[0] == 'b' && "blocked_by:"@.len()
            == 11,
        line_has_no_newline("blocks:"@) && "blocks:"@[0] == 'b' && "blocks:"@.len() == 7,
        line_has_no_newline("parent: "@) && "parent: "@[0] == 'p' && "parent: "@.len() == 8,
        line_has_no_newline("children: "@) == line_has_no_newline("children: "@),
        line_has_no_newline("children:"@) && "children:"@[0] == 'c' && "children:"@.len() == 9,
        line_has_no_newline("- "@) && "- "@[0] == '-' && "- "@[1] == ' ' && "- "@.len() == 2,
        "---"@.len() == 3 && "---"@[0] == '-' && "---"@[1] == '-',
        "## Log"@.len() == 6 && "## Log"@[0] == '#',
        line_has_no_newline(Seq::<char>::empty()),
{
    reveal_strlit("title: ");
    reveal_strlit("id: ");
    reveal_strlit("created: ");
    reveal_strlit("updated: ");
    reveal_strlit("author: ");
    reveal_strlit("priority: ");
    reveal_strlit("tags:");
    reveal_strlit("blocked_by:");
    reveal_strlit("blocks:");
    reveal_strlit("parent: ");
    reveal_strlit("children:");
    reveal_strlit("children: ");
    reveal_strlit("- ");
    reveal_strlit("---");
    reveal_strlit("## Log");
}

/// An item line `- x`, its value quoted as written, is single-line and
/// not a fence.
proof fn lemma_item_good(x0: Seq<char>)
    requires
        line_has_no_newline(x0),
    ensures
        line_has_no_newline("- "@ + spec_quoted(x0)),
        "- "@ + spec_quoted(x0) != "---"@,
{
    lemma_key_facts();
    lemma_quoted_no_newline(x0);
    let x = spec_quoted(x0);
    let l = "- "@ + x;
    assert forall|i: int| 0 <= i < l.len() implies l[i] != '\n' by {
        if i < 2 {
            assert(l[i] == "- "@[i]);
        } else {
            assert(l[i] == x[i - 2]);
        }
    }
    if l == "---"@ {
        assert(l[1] == "- "@[1]);
    }
}

/// Every header line of a well-formed document is single-line and none is a
/// `---` fence.
proof fn lemma_header_lines_good(t: TaskView)
    requires
        t.wf(),
    ensures
        crate::chars::lines_have_no_newline(spec_header_lines(t)),
        forall|i: int|
            0 <= i < spec_header_lines(t).len() ==> (#[trigger] spec_header_lines(t)[i])
                != "---"@,
{
    lemma_key_facts();
    crate::time::lemma_render_ts_no_newline(t.created);
    crate::time::lemma_render_ts_no_newline(t.updated);
    let h = spec_header_lines(t);
    assert(line_has_no_newline(t.priority.spec_name()) && t.priority.spec_name().len() >= 1) by {
        reveal_strlit("low");
        reveal_strlit("medium");
        reveal_strlit("high");
        reveal_strlit("critical");
        match t.priority {
            Priority::Low => {
                assert(forall|i: int| 0 <= i < 3 ==> "low"@[i] != '\n');
            },
            Priority::Medium => {
                assert(forall|i: int| 0 <= i < 6 ==> "medium"@[i] != '\n');
            },
            Priority::High => {
                assert(forall|i: int| 0 <= i < 4 ==> "high"@[i] != '\n');
            },
            Priority::Critical => {
                assert(forall|i: int| 0 <= i < 8 ==> "critical"@[i] != '\n');
            },
        }
    }
    assert forall|i: int| 0 <= i < h.len() implies line_has_no_newline(#[trigger] h[i]) && h[i]
        != "---"@ by {
        let sa = spec_opt_line("author: "@, t.author);
        let stg = spec_list_section("tags:"@, t.tags);
        let sbb = spec_list_section("blocked_by:"@, t.blocked_by);
        let sbk = spec_list_section("blocks:"@, t.blocks);
        let spr = spec_opt_line("parent: "@, t.parent);
        let sch = spec_list_section("children:"@, t.children);
        let o0: int = 4;
        let o1 = o0 + sa.len();
        let o2 = o1 + 1;
        let o3 = o2 + stg.len();
        let o4 = o3 + sbb.len();
        let o5 = o4 + sbk.len();
        let o6 = o5 + spr.len();
        let o7 = o6 + sch.len();
        assert(h.len() == o7);
        if i == 0 {
            lemma_quoted_no_newline(t.title);
            lemma_kv_good("title: "@, spec_quoted(t.title));
        } else if i == 1 {
            lemma_quoted_no_newline(t.id);
            lemma_kv_good("id: "@, spec_quoted(t.id));
        } else if i == 2 {
            lemma_kv_good("created: "@, spec_render_ts(t.created));
        } else if i == 3 {
            lemma_kv_good("updated: "@, spec_render_ts(t.updated));
        } else if i < o1 {
            assert(h[i] == "author: "@ + spec_quoted(t.author.unwrap()));
            lemma_quoted_no_newline(t.author.unwrap());
            lemma_kv_good("author: "@, spec_quoted(t.author.unwrap()));
        } else if i < o2 {
            assert(h[i] == "priority: "@ + t.priority.spec_name());
            lemma_kv_good("priority: "@, t.priority.spec_name());
        } else if i < o3 {
            if i == o2 {
                assert(h[i] == "tags:"@);
                lemma_kv_good("tags:"@, Seq::<char>::empty());
                assert("tags:"@ + Seq::<char>::empty() =~= "tags:"@);
            } else {
                assert(h[i] == "- "@ + spec_quoted(t.tags[i - o2 - 1]));
                lemma_item_good(t.tags[i - o2 - 1]);
            }
        } else if i < o4 {
            if i == o3 {
                assert(h[i] == "blocked_by:"@);
                lemma_kv_good("blocked_by:"@, Seq::<char>::empty());
                assert("blocked_by:"@ + Seq::<char>::empty() =~= "blocked_by:"@);
            } else {
                assert(h[i] == "- "@ + spec_quoted(t.blocked_by[i - o3 - 1]));
                lemma_item_good(t.blocked_by[i - o3 - 1]);
            }
        } else if i < o5 {
            if i == o4 {
                assert(h[i] == "blocks:"@);
                lemma_kv_good("blocks:"@, Seq::<char>::empty());
                assert("blocks:"@ + Seq::<char>::empty() =~= "blocks:"@);
            } else {
                assert(h[i] == "- "@ + spec_quoted(t.blocks[i - o4 - 1]));
                lemma_item_good(t.blocks[i - o4 - 1]);
            }
        } else if i < o6 {
            assert(h[i] == "parent: "@ + spec_quoted(t.parent.unwrap()));
            lemma_quoted_no_newline(t.parent.unwrap());
            lemma_kv_good("parent: "@, spec_quoted(t.parent.unwrap()));
        } else {
            if i == o6 {
                assert(h[i] == "children:"@);
                lemma_kv_good("children:"@, Seq::<char>::empty());
                assert("children:"@ + Seq::<char>::empty() =~= "children:"@);
            } else {
                assert(h[i] == "- "@ + spec_quoted(t.children[i - o6 - 1]));
                lemma_item_good(t.children[i - o6 - 1]);
            }
        }
    }
}

/// The line sequence of the lines following the closed header fence.
pub open spec fn spec_rest_lines(t: TaskView) -> Seq<Seq<char>> {
    seq![Seq::<char>::empty()] + (if t.body.len() == 0 {
        Seq::<Seq<char>>::empty()
    } else {
        spec_split_lines(t.body) + seq![Seq::<char>::empty()]
    }) + seq!["---"@, "## Log"@, Seq::<char>::empty()] + spec_split_lines(t.log)
}

/// The full line sequence of a serialized document.
pub open spec fn spec_doc_lines(t: TaskView) -> Seq<Seq<char>> {
    seq!["---"@] + spec_header_lines(t) + seq!["---"@] + spec_rest_lines(t)
}

/// The log section's marker text splits into its four lines followed by
/// the log's own lines.
proof fn lemma_split_log_tail(log: Seq<char>)
    ensures
        spec_split_lines("\n---\n## Log\n\n"@ + log) == seq![
            Seq::<char>::empty(),
            "---"@,
            "## Log"@,
            Seq::<char>::empty(),
        ] + spec_split_lines(log),
{
    reveal_strlit("---");
    reveal_strlit("## Log");
    reveal_strlit("\n---\n## Log\n\n");
    let tail_lit = "\n---\n## Log\n\n"@;
    assert(tail_lit =~= seq!['\n', '-', '-', '-', '\n', '#', '#', ' ', 'L', 'o', 'g', '\n', '\n']);
    assert("---"@ =~= seq!['-', '-', '-']);
    assert("## Log"@ =~= seq!['#', '#', ' ', 'L', 'o', 'g']);
    let tail = tail_lit + log;
    assert(tail =~= Seq::<char>::empty() + seq!['\n'] + ("---"@ + seq!['\n'] + ("## Log"@
        + seq!['\n'] + (Seq::<char>::empty() + seq!['\n'] + log))));
    crate::chars::lemma_split_lines_concat(Seq::<char>::empty(), "---"@ + seq!['\n'] + (
    "## Log"@ + seq!['\n'] + (Seq::<char>::empty() + seq!['\n'] + log)));
    crate::chars::lemma_split_lines_concat("---"@, "## Log"@ + seq!['\n'] + (Seq::<
        char,
    >::empty() + seq!['\n'] + log));
    crate::chars::lemma_split_lines_concat("## Log"@, Seq::<char>::empty() + seq!['\n'] + log);
    crate::chars::lemma_split_lines_concat(Seq::<char>::empty(), log);
    crate::chars::lemma_split_lines_single(Seq::<char>::empty());
    crate::chars::lemma_split_lines_single("---"@);
    crate::chars::lemma_split_lines_single("## Log"@);
    assert(spec_split_lines(tail) =~= seq![Seq::<char>::empty(), "---"@, "## Log"@, Seq::<
        char,
    >::empty()] + spec_split_lines(log));
}

/// The body part followed by the log section splits into the rest lines.
proof fn lemma_split_rest(t: TaskView)
    requires
        t.wf(),
    ensures
        spec_split_lines((if t.body.len() == 0 {
            Seq::<char>::empty()
        } else {
            seq!['\n'] + t.body + seq!['\n']
        }) + "\n---\n## Log\n\n"@ + t.log) == spec_rest_lines(t),
{
    let log = t.log;
    let tail_lit = "\n---\n## Log\n\n"@;
    let tail = tail_lit + log;
    lemma_split_log_tail(log);
    let bp_tail = (if t.body.len() == 0 {
        Seq::<char>::empty()
    } else {
        seq!['\n'] + t.body + seq!['\n']
    }) + tail_lit + t.log;
    if t.body.len() == 0 {
        assert(bp_tail =~= tail);
        assert(spec_rest_lines(t) =~= spec_split_lines(bp_tail));
    } else {
        assert(bp_tail =~= Seq::<char>::empty() + seq!['\n'] + (t.body + seq!['\n'] + tail));
        crate::chars::lemma_split_lines_concat(Seq::<char>::empty(), t.body + seq!['\n']
            + tail);
        crate::chars::lemma_split_lines_concat(t.body, tail);
        crate::chars::lemma_split_lines_single(Seq::<char>::empty());
        assert(spec_split_lines(bp_tail) =~= seq![Seq::<char>::empty()] + spec_split_lines(
            t.body,
        ) + spec_split_lines(tail));
        assert(spec_rest_lines(t) =~= spec_split_lines(bp_tail));
    }
}

/// Splitting a serialized well-formed document yields its line sequence.
#[verifier::rlimit(100)]
#[verifier::spinoff_prover]
proof fn lemma_doc_lines(t: TaskView)
    requires
        t.wf(),
    ensures
        spec_split_lines(spec_to_markdown(t)) == spec_doc_lines(t),
{
    lemma_header_lines_good(t);
    reveal_strlit("---\n");
    reveal_strlit("---");
    let hdr = spec_header_lines(t);
    assert("---\n"@ =~= "---"@ + seq!['\n']);
    assert("---"@ =~= seq!['-', '-', '-']);
    let bp_tail = (if t.body.len() == 0 {
        Seq::<char>::empty()
    } else {
        seq!['\n'] + t.body + seq!['\n']
    }) + "\n---\n## Log\n\n"@ + t.log;
    lemma_split_rest(t);
    // the closing fence of the header, then the body part and tail
    let after_hdr = "---"@ + seq!['\n'] + bp_tail;
    crate::chars::lemma_split_lines_concat("---"@, bp_tail);
    crate::chars::lemma_split_lines_single("---"@);
    // the header lines, newline-terminated, then everything after
    let doc = spec_to_markdown(t);
    assert(doc =~= "---"@ + seq!['\n'] + (spec_lines_term(hdr) + after_hdr));
    crate::chars::lemma_split_lines_concat("---"@, spec_lines_term(hdr) + after_hdr);
    crate::chars::lemma_split_lines_term(hdr, after_hdr);
    assert(spec_split_lines(doc) =~= seq!["---"@] + (hdr + (seq!["---"@] + spec_split_lines(
        bp_tail,
    ))));
    assert(spec_split_lines(doc) =~= spec_doc_lines(t));
}

/// Reading the `- item` lines written for a list gives the list back.
proof fn lemma_sp_items_section(h: Seq<Seq<char>>, i: int, items: Seq<Seq<char>>)
    requires
        0 <= i,
        i + items.len() <= h.len(),
        forall|k: int|
            0 <= k < items.len() ==> h[i + k] == "- "@ + spec_quoted(#[trigger] items[k]),
        i + items.len() == h.len() || !spec_starts_with(h[i + items.len()], "- "@),
    ensures
        sp_items(h, i) == (items, i + items.len() as int),
    decreases items.len(),
{
    lemma_key_facts();
    if items.len() == 0 {
        assert(sp_items(h, i) == (Seq::<Seq<char>>::empty(), i));
        assert((Seq::<Seq<char>>::empty(), i) =~= (items, i));
    } else {
        assert(h[i] == "- "@ + spec_quoted(items[0]));
        assert(spec_starts_with(h[i], "- "@)) by {
            assert(h[i].subrange(0, 2) =~= "- "@);
        }
        assert(h[i].subrange(2, h[i].len() as int) =~= spec_quoted(items[0]));
        lemma_quoting_roundtrip(items[0]);
        lemma_sp_items_section(h, i + 1, items.drop_first());
        assert(forall|k: int|
            0 <= k < items.drop_first().len() ==> h[i + 1 + k] == "- "@ + spec_quoted(
                #[trigger] items.drop_first()[k],
            ));
        assert(seq![items[0]] + items.drop_first() =~= items);
    }
}
/// Reading a whole list field written at the cursor gives its items and
/// leaves the cursor after them.
proof fn lemma_sp_list_at(h: Seq<Seq<char>>, at: int, key: Seq<char>, items: Seq<Seq<char>>)
    requires
        0 <= at,
        items.len() == 0 ==> at >= h.len() || h[at] != key,
        items.len() > 0 ==> at < h.len() && h[at] == key && at + 1 + items.len() <= h.len() && (
        forall|k: int|
            0 <= k < items.len() ==> h[at + 1 + k] == "- "@ + spec_quoted(
                #[trigger] items[k],
            )) && (
        at + 1 + items.len() == h.len() || !spec_starts_with(h[at + 1 + items.len()], "- "@)),
    ensures
        sp_list(h, at, key) == (
            items,
            if items.len() == 0 {
                at
            } else {
                at + 1 + items.len() as int
            },
        ),
{
    if items.len() == 0 {
        assert(sp_list(h, at, key).0 =~= items);
    } else {
        lemma_sp_items_section(h, at + 1, items);
    }
}

proof fn lemma_sp_strip_concat(key: Seq<char>, val: Seq<char>)
    ensures
        sp_strip(key + val, key) == Some(val),
{
    assert((key + val).subrange(0, key.len() as int) =~= key);
    assert((key + val).subrange(key.len() as int, (key + val).len() as int) =~= val);
}

// Cursor positions of the header sections, by the omission rules.
spec fn ho1(t: TaskView) -> int {
    4 + spec_opt_line("author: "@, t.author).len() as int
}

spec fn ho2(t: TaskView) -> int {
    ho1(t) + 1
}

spec fn ho3(t: TaskView) -> int {
    ho2(t) + spec_list_section("tags:"@, t.tags).len() as int
}

spec fn ho4(t: TaskView) -> int {
    ho3(t) + spec_list_section("blocked_by:"@, t.blocked_by).len() as int
}

spec fn ho5(t: TaskView) -> int {
    ho4(t) + spec_list_section("blocks:"@, t.blocks).len() as int
}

spec fn ho6(t: TaskView) -> int {
    ho5(t) + spec_opt_line("parent: "@, t.parent).len() as int
}

spec fn ho7(t: TaskView) -> int {
    ho6(t) + spec_list_section("children:"@, t.children).len() as int
}

/// Where each field of a serialized header sits in its line sequence, and
/// what the first line after each section can be.
#[verifier::rlimit(100)]
proof fn lemma_header_index_facts(t: TaskView)
    ensures
        spec_header_lines(t).len() == ho7(t),
        4 <= ho1(t) < ho2(t) <= ho3(t) <= ho4(t) <= ho5(t) <= ho6(t) <= ho7(t),
        spec_header_lines(t)[0] == "title: "@ + spec_quoted(t.title),
        spec_header_lines(t)[1] == "id: "@ + spec_quoted(t.id),
        spec_header_lines(t)[2] == "created: "@ + spec_render_ts(t.created),
        spec_header_lines(t)[3] == "updated: "@ + spec_render_ts(t.updated),
        match t.author {
            Some(a) => spec_header_lines(t)[4] == "author: "@ + spec_quoted(a),
            None => ho1(t) == 4,
        },
        spec_header_lines(t)[ho1(t)] == "priority: "@ + t.priority.spec_name(),
        t.tags.len() > 0 ==> spec_header_lines(t)[ho2(t)] == "tags:"@ && ho2(t) + 1
            + t.tags.len() == ho3(t),
        t.tags.len() == 0 ==> ho2(t) == ho3(t),
        forall|k: int|
            t.tags.len() > 0 && 0 <= k < t.tags.len() ==> spec_header_lines(t)[ho2(t) + 1 + k]
                == "- "@ + spec_quoted(#[trigger] t.tags[k]),
        t.blocked_by.len() > 0 ==> spec_header_lines(t)[ho3(t)] == "blocked_by:"@ && ho3(t) + 1
            + t.blocked_by.len() == ho4(t),
        t.blocked_by.len() == 0 ==> ho3(t) == ho4(t),
        forall|k: int|
            t.blocked_by.len() > 0 && 0 <= k < t.blocked_by.len() ==> spec_header_lines(t)[ho3(t)
                + 1 + k] == "- "@ + spec_quoted(#[trigger] t.blocked_by[k]),
        t.blocks.len() > 0 ==> spec_header_lines(t)[ho4(t)] == "blocks:"@ && ho4(t) + 1
            + t.blocks.len() == ho5(t),
        t.blocks.len() == 0 ==> ho4(t) == ho5(t),
        forall|k: int|
            t.blocks.len() > 0 && 0 <= k < t.blocks.len() ==> spec_header_lines(t)[ho4(t) + 1
                + k] == "- "@ + spec_quoted(#[trigger] t.blocks[k]),
        match t.parent {
            Some(p) => spec_header_lines(t)[ho5(t)] == "parent: "@ + spec_quoted(p) && ho5(t) + 1 == ho6(t),
            None => ho5(t) == ho6(t),
        },
        t.children.len() > 0 ==> spec_header_lines(t)[ho6(t)] == "children:"@ && ho6(t) + 1
            + t.children.len() == ho7(t),
        t.children.len() == 0 ==> ho6(t) == ho7(t),
        forall|k: int|
            t.children.len() > 0 && 0 <= k < t.children.len() ==> spec_header_lines(t)[ho6(t) + 1
                + k] == "- "@ + spec_quoted(#[trigger] t.children[k]),
        ho3(t) == ho7(t) || spec_header_lines(t)[ho3(t)] == "blocked_by:"@
            || spec_header_lines(t)[ho3(t)] == "blocks:"@ || (t.parent is Some
            && spec_header_lines(t)[ho3(t)] == "parent: "@ + spec_quoted(t.parent.unwrap()))
            || spec_header_lines(t)[ho3(t)] == "children:"@,
        ho4(t) == ho7(t) || spec_header_lines(t)[ho4(t)] == "blocks:"@ || (t.parent is Some
            && spec_header_lines(t)[ho4(t)] == "parent: "@ + spec_quoted(t.parent.unwrap()))
            || spec_header_lines(t)[ho4(t)] == "children:"@,
        ho5(t) == ho7(t) || (t.parent is Some && spec_header_lines(t)[ho5(t)] == "parent: "@
            + spec_quoted(t.parent.unwrap())) || spec_header_lines(t)[ho5(t)] == "children:"@,
        ho6(t) == ho7(t) || spec_header_lines(t)[ho6(t)] == "children:"@,
{
    let h = spec_header_lines(t);
    let l1 = seq![
        "title: "@ + spec_quoted(t.title),
        "id: "@ + spec_quoted(t.id),
        "created: "@ + spec_render_ts(t.created),
        "updated: "@ + spec_render_ts(t.updated),
    ];
    let sa = spec_opt_line("author: "@, t.author);
    let sp = seq!["priority: "@ + t.priority.spec_name()];
    let stg = spec_list_section("tags:"@, t.tags);
    let sbb = spec_list_section("blocked_by:"@, t.blocked_by);
    let sbk = spec_list_section("blocks:"@, t.blocks);
    let spr = spec_opt_line("parent: "@, t.parent);
    let sch = spec_list_section("children:"@, t.children);
    assert(h =~= l1 + sa + sp + stg + sbb + sbk + spr + sch);
    assert(t.tags.len() > 0 ==> h[ho2(t)] == stg[0]);
    assert(forall|k: int|
        t.tags.len() > 0 && 0 <= k < t.tags.len() ==> h[ho2(t) + 1 + k] == stg[1 + k]
            && stg[1 + k] == "- "@ + spec_quoted(#[trigger] t.tags[k]));
    assert(t.blocked_by.len() > 0 ==> h[ho3(t)] == sbb[0]);
    assert(forall|k: int|
        t.blocked_by.len() > 0 && 0 <= k < t.blocked_by.len() ==> h[ho3(t) + 1 + k] == sbb[1 + k]
            && sbb[1 + k] == "- "@ + spec_quoted(#[trigger] t.blocked_by[k]));
    assert(t.blocks.len() > 0 ==> h[ho4(t)] == sbk[0]);
    assert(forall|k: int|
        t.blocks.len() > 0 && 0 <= k < t.blocks.len() ==> h[ho4(t) + 1 + k] == sbk[1 + k]
            && sbk[1 + k] == "- "@ + spec_quoted(#[trigger] t.blocks[k]));
    assert(t.parent is Some ==> h[ho5(t)] == spr[0]);
    assert(t.children.len() > 0 ==> h[ho6(t)] == sch[0]);
    assert(forall|k: int|
        t.children.len() > 0 && 0 <= k < t.children.len() ==> h[ho6(t) + 1 + k] == sch[1 + k]
            && sch[1 + k] == "- "@ + spec_quoted(#[trigger] t.children[k]));
    if ho3(t) < ho7(t) {
        if sbb.len() > 0 {
            assert(h[ho3(t)] == sbb[0]);
        } else if sbk.len() > 0 {
            assert(h[ho3(t)] == sbk[0]);
        } else if spr.len() > 0 {
            assert(h[ho3(t)] == spr[0]);
        } else {
            assert(h[ho3(t)] == sch[0]);
        }
    }
    if ho4(t) < ho7(t) {
        if sbk.len() > 0 {
            assert(h[ho4(t)] == sbk[0]);
        } else if spr.len() > 0 {
            assert(h[ho4(t)] == spr[0]);
        } else {
            assert(h[ho4(t)] == sch[0]);
        }
    }
    if ho5(t) < ho7(t) {
        if spr.len() > 0 {
            assert(h[ho5(t)] == spr[0]);
        } else {
            assert(h[ho5(t)] == sch[0]);
        }
    }
    if ho6(t) < ho7(t) {
        assert(h[ho6(t)] == sch[0]);
    }
}

/// A priority name opens with a letter, so it never looks quoted.
proof fn lemma_priority_name_unquoted(p: Priority)
    ensures
        spec_unquoted(p.spec_name()) == p.spec_name(),
{
    reveal_strlit("low");
    reveal_strlit("medium");
    reveal_strlit("high");
    reveal_strlit("critical");
    match p {
        Priority::Low => {
            assert(!crate::chars::is_quote_wrapped("low"@));
        },
        Priority::Medium => {
            assert(!crate::chars::is_quote_wrapped("medium"@));
        },
        Priority::High => {
            assert(!crate::chars::is_quote_wrapped("high"@));
        },
        Priority::Critical => {
            assert(!crate::chars::is_quote_wrapped("critical"@));
        },
    }
}

/// The fixed leading fields of a serialized header answer the document's
/// own values when read back.
#[verifier::rlimit(100)]
#[verifier::spinoff_prover]
proof fn lemma_parse_header_pieces_fixed(t: TaskView)
    requires
        t.wf(),
    ensures
        spec_header_lines(t).len() == ho7(t) && ho7(t) >= 5,
        sp_strip(spec_header_lines(t)[0], "title: "@) == Some(spec_quoted(t.title)),
        spec_unquoted(spec_quoted(t.title)) == t.title,
        sp_strip(spec_header_lines(t)[1], "id: "@) == Some(spec_quoted(t.id)),
        spec_unquoted(spec_quoted(t.id)) == t.id,
        sp_strip(spec_header_lines(t)[2], "created: "@) == Some(spec_render_ts(t.created)),
        sp_strip(spec_header_lines(t)[3], "updated: "@) == Some(spec_render_ts(t.updated)),
        spec_unquoted(spec_render_ts(t.created)) == spec_render_ts(t.created),
        spec_unquoted(spec_render_ts(t.updated)) == spec_render_ts(t.updated),
        spec_parse_ts(spec_render_ts(t.created)) == Some(t.created),
        spec_parse_ts(spec_render_ts(t.updated)) == Some(t.updated),
        sp_opt(spec_header_lines(t), 4, "author: "@) == (t.author, ho1(t)),
        ho1(t) < ho7(t),
        sp_strip(spec_header_lines(t)[ho1(t)], "priority: "@) == Some(t.priority.spec_name()),
        spec_unquoted(t.priority.spec_name()) == t.priority.spec_name(),
        spec_priority_of_name(t.priority.spec_name()) == Some(t.priority),
{
    lemma_key_facts();
    lemma_header_index_facts(t);
    let h = spec_header_lines(t);
    lemma_sp_strip_concat("title: "@, spec_quoted(t.title));
    lemma_sp_strip_concat("id: "@, spec_quoted(t.id));
    lemma_sp_strip_concat("created: "@, spec_render_ts(t.created));
    lemma_sp_strip_concat("updated: "@, spec_render_ts(t.updated));
    lemma_quoting_roundtrip(t.title);
    lemma_quoting_roundtrip(t.id);
    crate::time::lemma_render_parse_ts(t.created);
    crate::time::lemma_render_parse_ts(t.updated);
    crate::time::lemma_render_ts_unquoted(t.created);
    crate::time::lemma_render_ts_unquoted(t.updated);
    lemma_priority_name_unquoted(t.priority);
    // author
    let ar = sp_opt(h, 4, "author: "@);
    match t.author {
        Some(a) => {
            assert(spec_starts_with(h[4], "author: "@)) by {
                assert(h[4].subrange(0, 8) =~= "author: "@);
            }
            assert(h[4].subrange(8, h[4].len() as int) =~= spec_quoted(a));
            lemma_quoting_roundtrip(a);
            assert(ar == (Some(a), 5 as int));
        },
        None => {
            assert(!spec_starts_with(h[4], "author: "@)) by {
                if spec_starts_with(h[4], "author: "@) {
                    assert(h[4].subrange(0, 8)[0] == h[4][0]);
                    assert(h[4][0] == 'p');
                }
            }
            assert(ar == (None::<Seq<char>>, 4 as int));
        },
    }
    assert(ar.1 == ho1(t));
    // priority
    lemma_sp_strip_concat("priority: "@, t.priority.spec_name());
    crate::task::lemma_priority_names(t.priority);
}

/// The list and parent sections of a serialized header answer the
/// document's own values and leave the cursor at the end.
#[verifier::rlimit(100)]
#[verifier::spinoff_prover]
proof fn lemma_parse_header_pieces_sections(t: TaskView)
    requires
        t.wf(),
    ensures
        sp_list(spec_header_lines(t), ho2(t), "tags:"@) == (t.tags, ho3(t)),
        sp_list(spec_header_lines(t), ho3(t), "blocked_by:"@) == (t.blocked_by, ho4(t)),
        sp_list(spec_header_lines(t), ho4(t), "blocks:"@) == (t.blocks, ho5(t)),
        sp_opt(spec_header_lines(t), ho5(t), "parent: "@) == (t.parent, ho6(t)),
        sp_list(spec_header_lines(t), ho6(t), "children:"@) == (t.children, ho7(t)),
{
    lemma_key_facts();
    lemma_header_index_facts(t);
    let h = spec_header_lines(t);
    let o2 = ho2(t);
    let o3 = ho3(t);
    let o4 = ho4(t);
    let o5 = ho5(t);
    let o6 = ho6(t);
    let o7 = ho7(t);
    assert(t.parent is Some ==> ("parent: "@ + spec_quoted(t.parent.unwrap()))[0] == 'p');
    // tags
    assert(o3 == o7 || !spec_starts_with(h[o3], "- "@)) by {
        if o3 < o7 && spec_starts_with(h[o3], "- "@) {
            assert(h[o3].subrange(0, 2)[0] == h[o3][0]);
            assert(h[o3][0] != '-');
        }
    }
    assert(t.tags.len() == 0 && o3 < o7 ==> h[o3] != "tags:"@);
    lemma_sp_list_at(h, o2, "tags:"@, t.tags);
    // blocked_by
    assert(o4 == o7 || !spec_starts_with(h[o4], "- "@)) by {
        if o4 < o7 && spec_starts_with(h[o4], "- "@) {
            assert(h[o4].subrange(0, 2)[0] == h[o4][0]);
            assert(h[o4][0] != '-');
        }
    }
    assert(t.blocked_by.len() == 0 && o4 < o7 ==> h[o4] != "blocked_by:"@);
    lemma_sp_list_at(h, o3, "blocked_by:"@, t.blocked_by);
    // blocks
    assert(o5 == o7 || !spec_starts_with(h[o5], "- "@)) by {
        if o5 < o7 && spec_starts_with(h[o5], "- "@) {
            assert(h[o5].subrange(0, 2)[0] == h[o5][0]);
            assert(h[o5][0] != '-');
        }
    }
    assert(t.blocks.len() == 0 && o5 < o7 ==> h[o5] != "blocks:"@);
    lemma_sp_list_at(h, o4, "blocks:"@, t.blocks);
    // parent
    let pr = sp_opt(h, o5, "parent: "@);
    assert(pr == (t.parent, o6)) by {
        match t.parent {
            Some(p) => {
                assert(spec_starts_with(h[o5], "parent: "@)) by {
                    assert(h[o5].subrange(0, 8) =~= "parent: "@);
                }
                assert(h[o5].subrange(8, h[o5].len() as int) =~= spec_quoted(p));
                lemma_quoting_roundtrip(p);
            },
            None => {
                if o5 < h.len() {
                    assert(h[o5] == "children:"@);
                    assert(!spec_starts_with(h[o5], "parent: "@)) by {
                        if spec_starts_with(h[o5], "parent: "@) {
                            assert(h[o5].subrange(0, 8)[0] == h[o5][0]);
                            assert(h[o5][0] == 'c');
                        }
                    }
                }
            },
        }
    }
    // children
    assert(t.children.len() == 0 ==> o6 == h.len());
    lemma_sp_list_at(h, o6, "children:"@, t.children);
}

/// Parsing the header lines written for a well-formed document recovers its
/// fields exactly.
#[verifier::rlimit(100)]
#[verifier::spinoff_prover]
proof fn lemma_parse_header_roundtrip(t: TaskView)
    requires
        t.wf(),
    ensures
        spec_parse_header(spec_header_lines(t)) == Some(
            HeaderView {
                title: t.title,
                id: t.id,
                created: t.created,
                updated: t.updated,
                author: t.author,
                priority: t.priority,
                tags: t.tags,
                blocked_by: t.blocked_by,
                blocks: t.blocks,
                parent: t.parent,
                children: t.children,
            },
        ),
{
    lemma_parse_header_pieces_fixed(t);
    lemma_parse_header_pieces_sections(t);
    let h = spec_header_lines(t);
    assert(spec_parse_header(h).unwrap() =~= HeaderView {
        title: t.title,
        id: t.id,
        created: t.created,
        updated: t.updated,
        author: t.author,
        priority: t.priority,
        tags: t.tags,
        blocked_by: t.blocked_by,
        blocks: t.blocks,
        parent: t.parent,
        children: t.children,
    });
}

/// The lines after the header fence divide back into the body and the log.
#[verifier::rlimit(100)]
proof fn lemma_body_log_roundtrip(t: TaskView)
    requires
        t.wf(),
    ensures
        spec_body_log(spec_rest_lines(t)) == (t.body, t.log),
{
    lemma_key_facts();
    let rest = spec_rest_lines(t);
    let bl = spec_split_lines(t.body);
    let ll = spec_split_lines(t.log);
    crate::chars::lemma_split_lines_len(t.body);
    crate::chars::lemma_split_lines_len(t.log);
    crate::chars::lemma_join_split(t.log);
    let e0 = Seq::<char>::empty();
    assert(spec_starts_with("## Log"@, "## Log"@)) by {
        assert("## Log"@.subrange(0, 6) =~= "## Log"@);
    }
    if t.body.len() == 0 {
        assert(rest =~= seq![e0, "---"@, "## Log"@, e0] + ll);
        assert(is_marker_at(rest, 1));
        assert(!is_marker_at(rest, 0)) by {
            assert(rest[0] == e0);
        }
        lemma_find_marker_some(rest, 0, 1);
        assert(rest.subrange(0, 1) =~= seq![e0]);
        assert(spec_join_lines(seq![e0]) == e0);
        assert(spec_trim(e0) == e0);
        assert(t.body =~= e0);
        let region = rest.subrange(3, rest.len() as int);
        assert(region =~= seq![e0] + ll);
        assert(region[0] == e0);
        assert(region.drop_first() =~= ll);
        assert(sp_log_join(region) == t.log);
    } else {
        assert(rest =~= seq![e0] + bl + seq![e0] + seq!["---"@, "## Log"@, e0] + ll);
        let j = bl.len() as int + 2;
        assert(rest[j] == "---"@);
        assert(rest[j + 1] == "## Log"@);
        assert(is_marker_at(rest, j));
        assert forall|q: int| 0 <= q < j implies !is_marker_at(rest, q) by {
            if q == 0 {
                assert(rest[0] == e0);
            } else if q <= bl.len() - 1 {
                assert(rest[q] == bl[q - 1]);
                assert(rest[q + 1] == bl[q]);
                if rest[q] == "---"@ && spec_starts_with(rest[q + 1], "## Log"@) {
                    assert(crate::task::has_log_marker_pair(bl)) by {
                        assert(bl[q - 1] == "---"@ && spec_starts_with(bl[q - 1 + 1], "## Log"@));
                    }
                }
            } else if q == bl.len() {
                assert(rest[q + 1] == e0);
                assert(!spec_starts_with(e0, "## Log"@));
            } else {
                assert(q == bl.len() + 1);
                assert(rest[q] == e0);
            }
        }
        lemma_find_marker_some(rest, 0, j);
        let before = rest.subrange(0, j);
        assert(before =~= seq![e0] + (bl + seq![e0]));
        crate::chars::lemma_join_lines_concat(bl, seq![e0]);
        crate::chars::lemma_join_lines_concat(seq![e0], bl + seq![e0]);
        crate::chars::lemma_join_split(t.body);
        assert(spec_join_lines(seq![e0]) == e0);
        assert(spec_join_lines(before) =~= seq!['\n'] + t.body + seq!['\n']);
        crate::chars::lemma_trim_wrapped(t.body);
        let region = rest.subrange(j + 2, rest.len() as int);
        assert(region =~= seq![e0] + ll);
        assert(region[0] == e0);
        assert(region.drop_first() =~= ll);
        assert(sp_log_join(region) == t.log);
    }
}

/// How the document's line sequence decomposes around its two fences.
#[verifier::rlimit(100)]
proof fn lemma_doc_lines_structure(t: TaskView)
    ensures
        spec_doc_lines(t).len() == 2 + spec_header_lines(t).len() + spec_rest_lines(t).len(),
        spec_doc_lines(t)[0] == "---"@,
        spec_doc_lines(t)[1 + spec_header_lines(t).len() as int] == "---"@,
        forall|q: int|
            1 <= q < 1 + spec_header_lines(t).len() ==> #[trigger] spec_doc_lines(t)[q]
                == spec_header_lines(t)[q - 1],
        spec_doc_lines(t).subrange(1, 1 + spec_header_lines(t).len() as int)
            == spec_header_lines(t),
        spec_doc_lines(t).subrange(
            2 + spec_header_lines(t).len() as int,
            spec_doc_lines(t).len() as int,
        ) == spec_rest_lines(t),
{
    let ls = spec_doc_lines(t);
    let hdr = spec_header_lines(t);
    let e = 1 + hdr.len() as int;
    assert(ls.subrange(1, e) =~= hdr);
    assert(ls.subrange(e + 1, ls.len() as int) =~= spec_rest_lines(t));
}

/// Round trip: parsing a serialized well-formed document gives the document
/// back, field for field, the log byte for byte.
#[verifier::rlimit(100)]
#[verifier::spinoff_prover]
pub proof fn lemma_markdown_roundtrip(t: TaskView)
    requires
        t.wf(),
    ensures
        spec_parse(spec_to_markdown(t)) == Some(t),
{
    lemma_doc_lines(t);
    lemma_doc_lines_structure(t);
    lemma_header_lines_good(t);
    let ls = spec_doc_lines(t);
    let hdr = spec_header_lines(t);
    let e = 1 + hdr.len() as int;
    assert forall|q: int| 1 <= q < e implies ls[q] != "---"@ by {
        assert(ls[q] == hdr[q - 1]);
    }
    lemma_find_dash_some(ls, 1, e);
    lemma_parse_header_roundtrip(t);
    lemma_body_log_roundtrip(t);
    assert(spec_parse(spec_to_markdown(t)).unwrap() =~= t);
}

} // verus!
