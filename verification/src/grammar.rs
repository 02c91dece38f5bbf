//! The markup grammar, stated at the specification level: a mathematical
//! mirror of the parser over `Seq<char>`, production by production. The
//! parser's contracts say that it computes exactly these functions.
//!
//! Recursive calls that depend on cursor progress are guarded by the
//! progress condition itself; the parser proves each guard as it runs.

use vstd::prelude::*;

use crate::node::{El, Node, Style};
use crate::parse::{
    empty_line_ahead, find_break, find_char, is_alnum, is_control, nl_before_solid, nth_solid2,
    run_len, spec_lps,
};
use crate::text::{solid_from, trim_spec};

verus! {

/// The shape and content of an element, with strings and children as
/// mathematical sequences.
pub enum SEl {
    Empty,
    Block(Seq<char>, Seq<SEl>),
    Inline(Seq<char>, Seq<SEl>),
    Code(Seq<char>),
    Codeblock(Option<Seq<char>>, Seq<char>),
    Details(Seq<SEl>, Seq<SEl>),
    Heading(u8, Seq<SEl>),
    Image(Seq<char>, Seq<char>),
    Item(Seq<SEl>),
    Link(Seq<char>, Seq<char>),
    List(Seq<SEl>),
    Style(Style, Seq<SEl>),
    Table(Seq<Seq<Seq<SEl>>>),
    Text(Seq<char>),
}

/// The element a node carries, viewed abstractly.
pub open spec fn node_view(n: Node) -> SEl
    decreases n,
{
    el_view(n.element)
}

pub open spec fn views(s: Seq<Node>) -> Seq<SEl>
    decreases s,
{
    if s.len() == 0 {
        Seq::empty()
    } else {
        seq![node_view(s[0])] + views(s.drop_first())
    }
}

pub open spec fn cols_view(cols: Seq<Vec<Node>>) -> Seq<Seq<SEl>>
    decreases cols,
{
    if cols.len() == 0 {
        Seq::empty()
    } else {
        seq![views(cols[0]@)] + cols_view(cols.drop_first())
    }
}

pub open spec fn rows_view(rows: Seq<Vec<Vec<Node>>>) -> Seq<Seq<Seq<SEl>>>
    decreases rows,
{
    if rows.len() == 0 {
        Seq::empty()
    } else {
        seq![cols_view(rows[0]@)] + rows_view(rows.drop_first())
    }
}

pub open spec fn el_view(e: El) -> SEl
    decreases e,
{
    match e {
        El::Empty => SEl::Empty,
        El::Block(t, c) => SEl::Block(t@, views(c@)),
        El::Inline(t, c) => SEl::Inline(t@, views(c@)),
        El::Code(t) => SEl::Code(t@),
        El::Codeblock(l, t) => SEl::Codeblock(
            match l {
                Some(ls) => Some(ls@),
                None => None,
            },
            t@,
        ),
        El::Details(a, b) => SEl::Details(views(a@), views(b@)),
        El::Heading(lv, c) => SEl::Heading(lv, views(c@)),
        El::Image(a, u) => SEl::Image(a@, u@),
        El::Item(c) => SEl::Item(views(c@)),
        El::Link(t, u) => SEl::Link(t@, u@),
        El::List(c) => SEl::List(views(c@)),
        El::Style(st, c) => SEl::Style(st, views(c@)),
        El::Table(rows) => SEl::Table(rows_view(rows@)),
        El::Text(t) => SEl::Text(t@),
    }
}

pub proof fn lemma_views_index(s: Seq<Node>)
    ensures
        views(s).len() == s.len(),
        forall|k: int| 0 <= k < s.len() ==> views(s)[k] == node_view(#[trigger] s[k]),
    decreases s,
{
    if s.len() > 0 {
        lemma_views_index(s.drop_first());
        assert forall|k: int| 0 <= k < s.len() implies views(s)[k] == node_view(#[trigger] s[k]) by {
            if k > 0 {
                assert(s.drop_first()[k - 1] == s[k]);
            }
        }
    }
}

pub proof fn lemma_views_push(s: Seq<Node>, n: Node)
    ensures
        views(s.push(n)) == views(s).push(node_view(n)),
    decreases s,
{
    let p = s.push(n);
    assert(p.len() == s.len() + 1);
    assert(views(p) == seq![node_view(p[0])] + views(p.drop_first()));
    if s.len() == 0 {
        assert(p.drop_first() =~= Seq::<Node>::empty());
        assert(p[0] == n);
        assert(views(p) =~= views(s).push(node_view(n)));
    } else {
        assert(p.drop_first() =~= s.drop_first().push(n));
        assert(p[0] == s[0]);
        lemma_views_push(s.drop_first(), n);
        assert(views(s) == seq![node_view(s[0])] + views(s.drop_first()));
        assert(views(p) =~= views(s).push(node_view(n)));
    }
}

pub proof fn lemma_cols_view_index(s: Seq<Vec<Node>>)
    ensures
        cols_view(s).len() == s.len(),
        forall|k: int| 0 <= k < s.len() ==> cols_view(s)[k] == views(#[trigger] s[k]@),
    decreases s,
{
    if s.len() > 0 {
        lemma_cols_view_index(s.drop_first());
        assert forall|k: int| 0 <= k < s.len() implies cols_view(s)[k] == views(
            #[trigger] s[k]@,
        ) by {
            if k > 0 {
                assert(s.drop_first()[k - 1] == s[k]);
            }
        }
    }
}

pub proof fn lemma_cols_view_push(s: Seq<Vec<Node>>, c: Vec<Node>)
    ensures
        cols_view(s.push(c)) == cols_view(s).push(views(c@)),
    decreases s,
{
    let p = s.push(c);
    assert(p.len() == s.len() + 1);
    assert(cols_view(p) == seq![views(p[0]@)] + cols_view(p.drop_first()));
    if s.len() == 0 {
        assert(p.drop_first() =~= Seq::<Vec<Node>>::empty());
        assert(p[0] == c);
        assert(cols_view(p) =~= cols_view(s).push(views(c@)));
    } else {
        assert(p.drop_first() =~= s.drop_first().push(c));
        assert(p[0] == s[0]);
        lemma_cols_view_push(s.drop_first(), c);
        assert(cols_view(s) == seq![views(s[0]@)] + cols_view(s.drop_first()));
        assert(cols_view(p) =~= cols_view(s).push(views(c@)));
    }
}

pub proof fn lemma_rows_view_push(s: Seq<Vec<Vec<Node>>>, r: Vec<Vec<Node>>)
    ensures
        rows_view(s.push(r)) == rows_view(s).push(cols_view(r@)),
    decreases s,
{
    let p = s.push(r);
    assert(p.len() == s.len() + 1);
    assert(rows_view(p) == seq![cols_view(p[0]@)] + rows_view(p.drop_first()));
    if s.len() == 0 {
        assert(p.drop_first() =~= Seq::<Vec<Vec<Node>>>::empty());
        assert(p[0] == r);
        assert(rows_view(p) =~= rows_view(s).push(cols_view(r@)));
    } else {
        assert(p.drop_first() =~= s.drop_first().push(r));
        assert(p[0] == s[0]);
        lemma_rows_view_push(s.drop_first(), r);
        assert(rows_view(s) == seq![cols_view(s[0]@)] + rows_view(s.drop_first()));
        assert(rows_view(p) =~= rows_view(s).push(cols_view(r@)));
    }
}

/// Emptiness at the view level, mirroring `el_empty`.
pub open spec fn sel_empty(e: SEl) -> bool
    decreases e,
{
    match e {
        SEl::Empty => true,
        SEl::Image(_, url) => url.len() == 0,
        SEl::Link(text, _) => text.len() == 0,
        SEl::Block(_, c) => sels_all_empty(c),
        SEl::Inline(_, c) => sels_all_empty(c),
        SEl::Style(_, c) => sels_all_empty(c),
        SEl::Heading(_, c) => sels_all_empty(c),
        SEl::Item(c) => sels_all_empty(c),
        SEl::List(c) => sels_all_empty(c),
        SEl::Details(a, b) => sels_all_empty(a) && sels_all_empty(b),
        SEl::Code(t) => trim_spec(t).len() == 0,
        SEl::Codeblock(_, t) => trim_spec(t).len() == 0,
        SEl::Text(t) => trim_spec(t).len() == 0,
        SEl::Table(rows) => srows_all_empty(rows),
    }
}

pub open spec fn sels_all_empty(s: Seq<SEl>) -> bool
    decreases s,
{
    forall|k: int| 0 <= k < s.len() ==> sel_empty(#[trigger] s[k])
}

pub open spec fn scols_all_empty(s: Seq<Seq<SEl>>) -> bool
    decreases s,
{
    forall|k: int| 0 <= k < s.len() ==> sels_all_empty(#[trigger] s[k])
}

pub open spec fn srows_all_empty(s: Seq<Seq<Seq<SEl>>>) -> bool
    decreases s,
{
    forall|k: int| 0 <= k < s.len() ==> scols_all_empty(#[trigger] s[k])
}

/// Viewing preserves emptiness: a node is empty exactly when its view is.
pub proof fn lemma_empty_view(e: El)
    ensures
        sel_empty(el_view(e)) == crate::node::el_empty(e),
    decreases e,
{
    match e {
        El::Block(_, c) => {
            lemma_empty_views(c@);
        },
        El::Inline(_, c) => {
            lemma_empty_views(c@);
        },
        El::Style(_, c) => {
            lemma_empty_views(c@);
        },
        El::Heading(_, c) => {
            lemma_empty_views(c@);
        },
        El::Item(c) => {
            lemma_empty_views(c@);
        },
        El::List(c) => {
            lemma_empty_views(c@);
        },
        El::Details(a, b) => {
            lemma_empty_views(a@);
            lemma_empty_views(b@);
        },
        El::Table(rows) => {
            lemma_empty_rows(rows@);
        },
        _ => {},
    }
}

proof fn lemma_empty_views(s: Seq<Node>)
    ensures
        sels_all_empty(views(s)) == crate::node::nodes_all_empty(s),
    decreases s,
{
    lemma_views_index(s);
    assert forall|k: int| 0 <= k < s.len() implies sel_empty(views(s)[k])
        == crate::node::node_empty(#[trigger] s[k]) by {
        lemma_empty_view(s[k].element);
    }
    if sels_all_empty(views(s)) {
        assert forall|k: int| 0 <= k < s.len() implies crate::node::node_empty(
            #[trigger] s[k],
        ) by {
            assert(sel_empty(views(s)[k]));
        }
    }
    if crate::node::nodes_all_empty(s) {
        assert forall|k: int| 0 <= k < views(s).len() implies sel_empty(
            #[trigger] views(s)[k],
        ) by {
            assert(crate::node::node_empty(s[k]));
        }
    }
}

proof fn lemma_empty_cols(s: Seq<Vec<Node>>)
    ensures
        scols_all_empty(cols_view(s)) == crate::node::cell_all_empty(s),
    decreases s,
{
    lemma_cols_view_index(s);
    assert forall|k: int| 0 <= k < s.len() implies sels_all_empty(cols_view(s)[k])
        == crate::node::nodes_all_empty(#[trigger] s[k]@) by {
        lemma_empty_views(s[k]@);
    }
    if scols_all_empty(cols_view(s)) {
        assert forall|k: int| 0 <= k < s.len() implies crate::node::nodes_all_empty(
            #[trigger] s[k]@,
        ) by {
            assert(sels_all_empty(cols_view(s)[k]));
        }
    }
    if crate::node::cell_all_empty(s) {
        assert forall|k: int| 0 <= k < cols_view(s).len() implies sels_all_empty(
            #[trigger] cols_view(s)[k],
        ) by {
            assert(crate::node::nodes_all_empty(s[k]@));
        }
    }
}

proof fn lemma_empty_rows(s: Seq<Vec<Vec<Node>>>)
    ensures
        srows_all_empty(rows_view(s)) == crate::node::rows_all_empty(s),
    decreases s,
{
    if s.len() > 0 {
        lemma_empty_rows(s.drop_first());
    }
    assert(rows_view(s).len() == s.len()) by {
        lemma_rows_len(s);
    }
    assert forall|k: int| 0 <= k < s.len() implies scols_all_empty(rows_view(s)[k])
        == crate::node::cell_all_empty(#[trigger] s[k]@) by {
        lemma_rows_index(s, k);
        lemma_empty_cols(s[k]@);
    }
    if srows_all_empty(rows_view(s)) {
        assert forall|k: int| 0 <= k < s.len() implies crate::node::cell_all_empty(
            #[trigger] s[k]@,
        ) by {
            assert(scols_all_empty(rows_view(s)[k]));
        }
    }
    if crate::node::rows_all_empty(s) {
        assert forall|k: int| 0 <= k < rows_view(s).len() implies scols_all_empty(
            #[trigger] rows_view(s)[k],
        ) by {
            assert(crate::node::cell_all_empty(s[k]@));
        }
    }
}

proof fn lemma_rows_len(s: Seq<Vec<Vec<Node>>>)
    ensures
        rows_view(s).len() == s.len(),
    decreases s,
{
    if s.len() > 0 {
        lemma_rows_len(s.drop_first());
    }
}

proof fn lemma_rows_index(s: Seq<Vec<Vec<Node>>>, k: int)
    requires
        0 <= k < s.len(),
    ensures
        rows_view(s).len() == s.len(),
        rows_view(s)[k] == cols_view(s[k]@),
    decreases s,
{
    lemma_rows_len(s);
    if k > 0 {
        lemma_rows_index(s.drop_first(), k - 1);
        assert(s.drop_first()[k - 1] == s[k]);
    }
}

/// Appends a parsed element unless it is empty.
pub open spec fn sg_add(acc: Seq<SEl>, e: SEl) -> Seq<SEl> {
    if sel_empty(e) {
        acc
    } else {
        acc.push(e)
    }
}

/// Whether the first non-blank character sits at a line start: nothing but
/// whitespace stands before the next newline.
pub open spec fn at_line_start(s: Seq<char>, i: int) -> bool
    decreases s.len() - i,
{
    if i < 0 || i >= s.len() {
        true
    } else if s[i] == '\n' {
        true
    } else if crate::text::is_ws_char(s[i]) {
        at_line_start(s, i + 1)
    } else {
        false
    }
}

/// First position whose character is not alphanumeric, or the length.
pub open spec fn alnum_end(s: Seq<char>, i: int) -> int
    decreases s.len() - i,
{
    if i < 0 || i >= s.len() {
        s.len() as int
    } else if is_alnum(s[i]) {
        alnum_end(s, i + 1)
    } else {
        i
    }
}

/// First position holding `|` or a newline, or the length.
pub open spec fn find_pipe(s: Seq<char>, i: int) -> int
    decreases s.len() - i,
{
    if i < 0 || i >= s.len() {
        s.len() as int
    } else if s[i] == '|' || s[i] == '\n' {
        i
    } else {
        find_pipe(s, i + 1)
    }
}

/// First position where `c` occurs twice in a row, or the length.
pub open spec fn find_double(s: Seq<char>, i: int, c: char) -> int
    decreases s.len() - i,
{
    if i < 0 || i >= s.len() {
        s.len() as int
    } else if i + 2 <= s.len() && s[i] == c && s[i + 1] == c {
        i
    } else {
        find_double(s, i + 1, c)
    }
}

/// First position where `c` occurs three times in a row, or the length.
pub open spec fn find_triple(s: Seq<char>, i: int, c: char) -> int
    decreases s.len() - i,
{
    if i < 0 || i >= s.len() {
        s.len() as int
    } else if i + 3 <= s.len() && s[i] == c && s[i + 1] == c && s[i + 2] == c {
        i
    } else {
        find_triple(s, i + 1, c)
    }
}

/// The cursor after skipping leading blank lines.
pub open spec fn skip_blank_lines(s: Seq<char>, cur: int) -> int
    decreases s.len() - cur, 2int, 0int,
{
    if !(0 <= cur <= s.len()) {
        cur
    } else if nl_before_solid(s, cur) {
        let cut = find_char(s, cur, '\n');
        let nxt = if cut < s.len() {
            cut + 1
        } else {
            cut
        };
        if cur < nxt <= s.len() {
            skip_blank_lines(s, nxt)
        } else {
            cur
        }
    } else {
        cur
    }
}

/// Plain text accumulation: one pass of the text production's loop.
pub open spec fn sg_text_loop(s: Seq<char>, cur: int, buf: Seq<char>) -> (int, Seq<char>)
    decreases s.len() - cur, 5int, 0int,
{
    if cur < 0 || cur > s.len() {
        (cur, buf)
    } else {
        let start = solid_from(s, cur);
        let stop = find_break(s, start);
        let buf2 = crate::node::add_text_view(buf, s.subrange(start, stop));
        let sol2 = solid_from(s, stop);
        if sol2 < s.len() && is_control(s[sol2]) && s[sol2] != '!' {
            (stop, buf2)
        } else if sol2 < s.len() && is_control(s[sol2]) && s[sol2] == '!' && nth_solid2(s, stop)
            == Some('[') {
            (stop, buf2)
        } else if sol2 < s.len() && is_control(s[sol2]) && s[sol2] == '!' {
            let buf3 = buf2.push('!');
            let cur2 = if s.len() - stop <= 1 {
                s.len() as int
            } else {
                stop + 1
            };
            if empty_line_ahead(s, cur2, false) {
                (cur2, buf3)
            } else if solid_from(s, cur2) == s.len() {
                (cur2, buf3)
            } else if cur < cur2 <= s.len() {
                sg_text_loop(s, cur2, buf3)
            } else {
                (cur2, buf3)
            }
        } else if empty_line_ahead(s, stop, false) {
            (stop, buf2)
        } else if solid_from(s, stop) == s.len() {
            (stop, buf2)
        } else if cur < stop <= s.len() {
            sg_text_loop(s, stop, buf2)
        } else {
            (stop, buf2)
        }
    }
}

/// The text production: content accumulated from position `i`.
pub open spec fn sg_text(s: Seq<char>, i: int) -> (int, Seq<char>)
    decreases s.len() - i, 6int, 0int,
{
    sg_text_loop(s, i, Seq::empty())
}

/// The heading production.
pub open spec fn sg_heading(s: Seq<char>, i: int) -> (int, SEl)
    decreases s.len() - i, 6int, 0int,
{
    let sol = solid_from(s, i);
    let he = sol + run_len(s, sol, '#');
    let run = run_len(s, sol, '#');
    let level: u8 = if run > 6 {
        6u8
    } else {
        run as u8
    };
    let sol2 = solid_from(s, he);
    let cut = find_char(s, sol2, '\n');
    let line = s.subrange(sol2, cut);
    let children = if line.len() < s.len() - i {
        sg_run(line, false)
    } else {
        Seq::empty()
    };
    (cut, SEl::Heading(level, children))
}

/// The styled-span production: bold, italic or strikethrough.
pub open spec fn sg_style(s: Seq<char>, i: int) -> (int, SEl)
    decreases s.len() - i, 6int, 0int,
{
    let sol = solid_from(s, i);
    if s.len() - sol >= 2 && s[sol] == '*' && s[sol + 1] == '*' {
        let cut = find_double(s, sol + 2, '*');
        let text = s.subrange(sol + 2, cut);
        let children = if text.len() < s.len() - i {
            sg_run(text, false)
        } else {
            Seq::empty()
        };
        let rest = if s.len() - cut <= 2 {
            s.len() as int
        } else {
            cut + 2
        };
        (rest, SEl::Style(Style::Bold, children))
    } else if 0 <= sol < s.len() && s[sol] == '*' {
        let cut = find_char(s, sol + 1, '*');
        let text = s.subrange(sol + 1, cut);
        let children = if text.len() < s.len() - i {
            sg_run(text, false)
        } else {
            Seq::empty()
        };
        let rest = if s.len() - cut <= 1 {
            s.len() as int
        } else {
            cut + 1
        };
        (rest, SEl::Style(Style::Italic, children))
    } else {
        let cut = find_char(s, sol + 1, '~');
        let text = s.subrange(sol + 1, cut);
        let children = if text.len() < s.len() - i {
            sg_run(text, false)
        } else {
            Seq::empty()
        };
        let rest = if s.len() - cut <= 1 {
            s.len() as int
        } else {
            cut + 1
        };
        (rest, SEl::Style(Style::Strikethrough, children))
    }
}

/// The code production: inline code or a fenced block with an optional
/// language tag.
pub open spec fn sg_code(s: Seq<char>, i: int) -> (int, SEl)
    decreases s.len() - i, 6int, 0int,
{
    if i + 3 <= s.len() && s[i] == '`' && s[i + 1] == '`' && s[i + 2] == '`' {
        let cut = find_triple(s, i + 3, '`');
        let code = trim_spec(s.subrange(i + 3, cut));
        let nl = find_char(code, 0, '\n');
        if nl < code.len() && alnum_end(code, 0) == nl {
            (
                cut,
                SEl::Codeblock(
                    Some(code.subrange(0, nl)),
                    trim_spec(code.subrange(nl, code.len() as int)),
                ),
            )
        } else {
            (cut, SEl::Codeblock(None, trim_spec(code)))
        }
    } else {
        let cut = find_char(s, i + 1, '`');
        (cut, SEl::Code(trim_spec(s.subrange(i + 1, cut))))
    }
}

/// The literal-text recovery of a failed link: the consumed text re-merged
/// with the plain text that follows.
pub open spec fn sg_merge(s: Seq<char>, i: int, consumed_to: int, t: Seq<char>) -> SEl {
    SEl::Text(
        trim_spec(trim_spec(s.subrange(i, consumed_to)) + seq![' '] + trim_spec(t)),
    )
}

/// The link production, with its literal-text fallback.
pub open spec fn sg_link(s: Seq<char>, i: int) -> (int, SEl)
    decreases s.len() - i, 6int, 0int,
{
    let sol = solid_from(s, i);
    let cur = if sol < s.len() {
        sol + 1
    } else {
        s.len() as int
    };
    let cut = find_char(s, cur, ']');
    let cur2 = if cut < s.len() {
        cut + 1
    } else {
        cut
    };
    let sol2 = solid_from(s, cur2);
    if sol2 < s.len() && s[sol2] == '(' {
        let cur3 = sol2 + 1;
        let close = find_char(s, cur3, ')');
        if close < s.len() {
            (
                close + 1,
                SEl::Link(trim_spec(s.subrange(cur, cut)), trim_spec(s.subrange(cur3, close))),
            )
        } else {
            if i < s.len() {
                let r = sg_text(s, s.len() as int);
                (r.0, sg_merge(s, i, s.len() as int, r.1))
            } else {
                (s.len() as int, sg_merge(s, i, s.len() as int, Seq::empty()))
            }
        }
    } else {
        if i < cur2 <= s.len() {
            let r = sg_text(s, cur2);
            (r.0, sg_merge(s, i, cur2, r.1))
        } else {
            (cur2, sg_merge(s, i, cur2, Seq::empty()))
        }
    }
}

/// The image production: a link after the marker, reinterpreted.
pub open spec fn sg_image(s: Seq<char>, i: int) -> (int, SEl)
    decreases s.len() - i, 7int, 0int,
{
    let sol = solid_from(s, i);
    let j = if sol < s.len() {
        sol + 1
    } else {
        s.len() as int
    };
    if j >= s.len() || solid_from(s, j) == s.len() {
        let end = if s.len() >= i + 1 {
            s.len() as int
        } else {
            i + 1
        };
        if i < s.len() {
            (end, SEl::Text(sg_text(s, s.len() as int).1))
        } else {
            (end, SEl::Text(Seq::empty()))
        }
    } else {
        if i < j <= s.len() {
            let r = sg_link(s, j);
            match r.1 {
                SEl::Link(t, u) => (r.0, SEl::Image(trim_spec(t), trim_spec(u))),
                _ => r,
            }
        } else {
            (i, SEl::Empty)
        }
    }
}

/// One table row: cells split on `|` until a newline.
pub open spec fn sg_row_loop(s: Seq<char>, i0: int, cur: int, cols: Seq<Seq<SEl>>) -> (
    int,
    Seq<Seq<SEl>>,
)
    decreases s.len() - i0, 3int, s.len() - cur,
{
    if cur < 0 || cur >= s.len() || s[cur] == '\n' {
        (cur, cols)
    } else {
        let stop = find_pipe(s, cur);
        let cell = s.subrange(cur, stop);
        let cells = if i0 < cur && cell.len() < s.len() - i0 {
            sg_run(cell, false)
        } else {
            Seq::empty()
        };
        let nxt = if stop < s.len() && s[stop] == '|' {
            stop + 1
        } else {
            stop
        };
        if cur < nxt <= s.len() {
            sg_row_loop(s, i0, nxt, cols.push(cells))
        } else {
            (nxt, cols.push(cells))
        }
    }
}

pub open spec fn sg_row(s: Seq<char>, i: int) -> (int, Seq<Seq<SEl>>)
    decreases s.len() - i, 4int, 0int,
{
    let cut = find_char(s, i, '|');
    let cur = if cut < s.len() {
        cut + 1
    } else {
        cut
    };
    if i <= cur <= s.len() {
        sg_row_loop(s, i, cur, Seq::empty())
    } else {
        (cur, Seq::empty())
    }
}

/// The table production: rows while each following line begins with `|`.
pub open spec fn sg_table_loop(s: Seq<char>, i0: int, cur: int, rows: Seq<Seq<Seq<SEl>>>) -> (
    int,
    Seq<Seq<Seq<SEl>>>,
)
    decreases s.len() - i0, 5int, s.len() - cur,
{
    if cur < i0 || cur > s.len() {
        (cur, rows)
    } else {
        let r = sg_row(s, cur);
        let nc = r.0;
        let rows2 = rows.push(r.1);
        let more = nc < s.len() && s[nc] == '\n' && solid_from(s, nc) < s.len() && s[solid_from(
            s,
            nc,
        )] == '|';
        if more && cur < nc <= s.len() {
            sg_table_loop(s, i0, nc, rows2)
        } else {
            (nc, rows2)
        }
    }
}

pub open spec fn sg_table(s: Seq<char>, i: int) -> (int, SEl)
    decreases s.len() - i, 6int, 0int,
{
    let r = sg_table_loop(s, i, i, Seq::empty());
    (r.0, SEl::Table(r.1))
}

/// The item-wrap of a list's children: anything that is not already an
/// item is wrapped in one.
pub open spec fn sg_wrap_items(children: Seq<SEl>) -> Seq<SEl> {
    Seq::new(
        children.len(),
        |k: int|
            if children[k] is Item {
                children[k]
            } else {
                SEl::Item(seq![children[k]])
            },
    )
}

/// One list item: nodes until a marker at the same or shallower depth, a
/// blank line, or the end of input.
pub open spec fn sg_item_inner(s: Seq<char>, i0: int, cur: int, acc: Seq<SEl>) -> (int, Seq<SEl>)
    decreases s.len() - i0, 17int, s.len() - cur,
{
    if cur < i0 || cur > s.len() {
        (cur, acc)
    } else if cur >= s.len() || s[cur] == '\n' || solid_from(s, cur) == s.len() {
        (cur, acc)
    } else {
        let r = sg_node(s, cur);
        if cur < r.0 <= s.len() {
            sg_item_inner(s, i0, r.0, sg_add(acc, r.1))
        } else {
            (r.0, sg_add(acc, r.1))
        }
    }
}

pub open spec fn sg_item_outer(s: Seq<char>, i0: int, cur: int, acc: Seq<SEl>, prefix: Option<
    int,
>) -> (int, Seq<SEl>)
    decreases s.len() - i0, 18int, s.len() - cur,
{
    if cur < i0 || cur > s.len() {
        (cur, acc)
    } else if solid_from(s, cur) == s.len() || empty_line_ahead(s, cur, false) {
        (cur, acc)
    } else {
        let inner = sg_item_inner(s, i0, cur, acc);
        let c2 = inner.0;
        let acc2 = inner.1;
        if !(i0 <= c2 <= s.len()) {
            (c2, acc2)
        } else {
            let sol = solid_from(s, c2);
            let marker_ends = sol < s.len() && s[sol] == '*' && (match (
                spec_lps(s, c2, 0),
                prefix,
            ) {
                (Some(a), Some(b)) => a <= b,
                (None, _) => true,
                (Some(_), None) => false,
            });
            if marker_ends {
                (c2, acc2)
            } else if empty_line_ahead(s, c2, false) {
                (c2, acc2)
            } else if solid_from(s, c2) == s.len() {
                (s.len() as int, acc2)
            } else {
                let r = sg_node_ls(s, c2);
                if cur <= c2 && c2 < r.0 <= s.len() {
                    sg_item_outer(s, i0, r.0, sg_add(acc2, r.1), prefix)
                } else {
                    (r.0, sg_add(acc2, r.1))
                }
            }
        }
    }
}

pub open spec fn sg_item(s: Seq<char>, i: int) -> (int, SEl)
    decreases s.len() - i, 4int, 0int,
{
    let prefix = spec_lps(s, i, 0);
    let star = find_char(s, i, '*');
    let cur = if star < s.len() {
        star + 1
    } else {
        star
    };
    if i < cur <= s.len() {
        let r = sg_item_outer(s, cur, cur, Seq::empty(), prefix);
        (r.0, SEl::Item(r.1))
    } else {
        (cur, SEl::Item(Seq::empty()))
    }
}

/// The list production: items while the marker depth stays the same.
pub open spec fn sg_list_loop(s: Seq<char>, i0: int, cur: int, acc: Seq<SEl>, prefix: Option<
    int,
>) -> (int, Seq<SEl>)
    decreases s.len() - i0, 5int, s.len() - cur,
{
    if cur < i0 || cur > s.len() {
        (cur, acc)
    } else {
        let same = match (spec_lps(s, cur, 0), prefix) {
            (Some(a), Some(b)) => a == b,
            _ => false,
        };
        if !same {
            (cur, acc)
        } else {
            let r = sg_item(s, cur);
            if cur < r.0 <= s.len() {
                sg_list_loop(s, i0, r.0, sg_add(acc, r.1), prefix)
            } else {
                (r.0, sg_add(acc, r.1))
            }
        }
    }
}

pub open spec fn sg_list(s: Seq<char>, i: int) -> (int, SEl)
    decreases s.len() - i, 6int, 0int,
{
    let r = sg_list_loop(s, i, i, Seq::empty(), spec_lps(s, i, 0));
    (r.0, SEl::List(sg_wrap_items(r.1)))
}

/// Dispatch: skip leading blank lines, then pick the production named by
/// the first non-whitespace character and the line-start flag.
pub open spec fn sg_dispatch(s: Seq<char>, i: int, als: bool) -> (int, SEl)
    decreases s.len() - i, 7int, 0int,
{
    let cur = skip_blank_lines(s, i);
    if !(i <= cur <= s.len()) {
        (s.len() as int, SEl::Empty)
    } else {
        let sol = solid_from(s, cur);
        if sol >= s.len() {
            (s.len() as int, SEl::Empty)
        } else {
            let c = s[sol];
            if c == '`' {
                sg_code(s, cur)
            } else if c == '#' {
                sg_heading(s, cur)
            } else if c == '*' && als {
                sg_list(s, cur)
            } else if c == '*' || c == '~' {
                sg_style(s, cur)
            } else if c == '[' {
                sg_link(s, cur)
            } else if c == '!' && nth_solid2(s, cur) == Some('[') {
                sg_image(s, cur)
            } else if c == '|' && als {
                sg_table(s, cur)
            } else {
                let r = sg_text(s, cur);
                (r.0, SEl::Text(r.1))
            }
        }
    }
}

/// One node, with the line-start flag derived from the text before the
/// next newline.
pub open spec fn sg_node(s: Seq<char>, i: int) -> (int, SEl)
    decreases s.len() - i, 8int, 0int,
{
    sg_dispatch(s, i, at_line_start(s, i))
}

/// One node with the line-start flag forced on.
pub open spec fn sg_node_ls(s: Seq<char>, i: int) -> (int, SEl)
    decreases s.len() - i, 8int, 1int,
{
    sg_dispatch(s, i, true)
}

/// A full run of nodes, dropping empty parses.
pub open spec fn sg_run_loop(s: Seq<char>, cur: int, acc: Seq<SEl>) -> Seq<SEl>
    decreases s.len(), 19int, s.len() - cur,
{
    if !(0 <= cur <= s.len()) {
        acc
    } else if solid_from(s, cur) == s.len() {
        acc
    } else {
        let r = sg_node(s, cur);
        if cur < r.0 <= s.len() {
            sg_run_loop(s, r.0, sg_add(acc, r.1))
        } else {
            acc
        }
    }
}

pub open spec fn sg_run(s: Seq<char>, als: bool) -> Seq<SEl>
    decreases s.len(), 20int, 0int,
{
    if als {
        let r = sg_node_ls(s, 0);
        sg_run_loop(s, r.0, sg_add(Seq::empty(), r.1))
    } else {
        sg_run_loop(s, 0, Seq::empty())
    }
}

/// The whole grammar: what parsing one document yields.
pub open spec fn sg_doc(s: Seq<char>) -> Seq<SEl> {
    sg_run(s, true)
}

} // verus!
