//! The markup parser: a cursor-based recursive descent over a character
//! vector, dispatching on the first non-whitespace character and a
//! line-start flag.

use vstd::prelude::*;

use crate::doc::Doc;
use crate::node::{node_empty, El, Node, Style};
use crate::text::{chars_blank, chars_of, is_ws, is_ws_char, scan_solid, solid_from, string_range};

verus! {

/// The characters that interrupt plain text and start a production.
pub open spec fn is_control(c: char) -> bool {
    c == '*' || c == '#' || c == '[' || c == '!' || c == '~' || c == '`'
}

fn is_control_exec(c: char) -> (r: bool)
    ensures
        r == is_control(c),
{
    c == '*' || c == '#' || c == '[' || c == '!' || c == '~' || c == '`'
}

/// ASCII letters and digits, as accepted in a code fence language tag.
pub open spec fn is_alnum(c: char) -> bool {
    ('a' <= c && c <= 'z') || ('A' <= c && c <= 'Z') || ('0' <= c && c <= '9')
}

pub fn is_alnum_exec(c: char) -> (r: bool)
    ensures
        r == is_alnum(c),
{
    ('a' <= c && c <= 'z') || ('A' <= c && c <= 'Z') || ('0' <= c && c <= '9')
}

/// First position at or after `i` whose character is `c`, or the length.
pub open spec fn find_char(s: Seq<char>, i: int, c: char) -> int
    decreases s.len() - i,
{
    if i < 0 || i >= s.len() {
        s.len() as int
    } else if s[i] == c {
        i
    } else {
        find_char(s, i + 1, c)
    }
}

pub proof fn lemma_find_char(s: Seq<char>, i: int, c: char)
    requires
        0 <= i <= s.len(),
    ensures
        i <= find_char(s, i, c) <= s.len(),
        find_char(s, i, c) < s.len() ==> s[find_char(s, i, c)] == c,
        forall|j: int| i <= j < find_char(s, i, c) ==> s[j] != c,
    decreases s.len() - i,
{
    if i < s.len() && s[i] != c {
        lemma_find_char(s, i + 1, c);
    }
}

fn scan_char(s: &Vec<char>, from: usize, c: char) -> (r: usize)
    requires
        from <= s@.len(),
    ensures
        r == find_char(s@, from as int, c),
        from <= r <= s@.len(),
    decreases s@.len() - from,
{
    proof {
        lemma_find_char(s@, from as int, c);
    }
    let mut i: usize = from;
    while i < s.len() && s[i] != c
        invariant
            from <= i <= s@.len(),
            find_char(s@, from as int, c) == find_char(s@, i as int, c),
        decreases s@.len() - i,
    {
        i = i + 1;
    }
    i
}

/// First position of a control character or newline, or the length.
pub open spec fn find_break(s: Seq<char>, i: int) -> int
    decreases s.len() - i,
{
    if i < 0 || i >= s.len() {
        s.len() as int
    } else if is_control(s[i]) || s[i] == '\n' {
        i
    } else {
        find_break(s, i + 1)
    }
}

fn scan_break(s: &Vec<char>, from: usize) -> (r: usize)
    requires
        from <= s@.len(),
    ensures
        r == find_break(s@, from as int),
        from <= r <= s@.len(),
        r < s@.len() ==> is_control(s@[r as int]) || s@[r as int] == '\n',
        from < r ==> !is_control(s@[from as int]) && s@[from as int] != '\n',
    decreases s@.len() - from,
{
    let mut i: usize = from;
    while i < s.len() && !is_control_exec(s[i]) && s[i] != '\n'
        invariant
            from <= i <= s@.len(),
            find_break(s@, from as int) == find_break(s@, i as int),
            from < i ==> !is_control(s@[from as int]) && s@[from as int] != '\n',
        decreases s@.len() - i,
    {
        i = i + 1;
    }
    i
}

/// The length of the run of `c` starting at position `i`.
pub open spec fn run_len(s: Seq<char>, i: int, c: char) -> int
    decreases s.len() - i,
{
    if i < 0 || i >= s.len() || s[i] != c {
        0
    } else {
        1 + run_len(s, i + 1, c)
    }
}

/// First position whose character is not `c`, or the length.
fn scan_not_char(s: &Vec<char>, from: usize, c: char) -> (r: usize)
    requires
        from <= s@.len(),
    ensures
        from <= r <= s@.len(),
        forall|j: int| from <= j < r ==> s@[j] == c,
        r < s@.len() ==> s@[r as int] != c,
        r - from == run_len(s@, from as int, c),
    decreases s@.len() - from,
{
    let mut i: usize = from;
    while i < s.len() && s[i] == c
        invariant
            from <= i <= s@.len(),
            forall|j: int| from <= j < i ==> s@[j] == c,
            run_len(s@, from as int, c) == i - from + run_len(s@, i as int, c),
        decreases s@.len() - i,
    {
        i = i + 1;
    }
    i
}

/// First position whose character is not alphanumeric, or the length.
fn scan_not_alnum(s: &Vec<char>, from: usize) -> (r: usize)
    requires
        from <= s@.len(),
    ensures
        from <= r <= s@.len(),
        r as int == crate::grammar::alnum_end(s@, from as int),
    decreases s@.len() - from,
{
    let mut i: usize = from;
    while i < s.len() && is_alnum_exec(s[i])
        invariant
            from <= i <= s@.len(),
            crate::grammar::alnum_end(s@, from as int) == crate::grammar::alnum_end(s@, i as int),
        decreases s@.len() - i,
    {
        i = i + 1;
    }
    i
}

/// First position holding `|` or a newline, or the length.
fn scan_pipe_or_nl(s: &Vec<char>, from: usize) -> (r: usize)
    requires
        from <= s@.len(),
    ensures
        from <= r <= s@.len(),
        r < s@.len() ==> s@[r as int] == '|' || s@[r as int] == '\n',
        r as int == crate::grammar::find_pipe(s@, from as int),
    decreases s@.len() - from,
{
    let mut i: usize = from;
    while i < s.len() && s[i] != '|' && s[i] != '\n'
        invariant
            from <= i <= s@.len(),
            crate::grammar::find_pipe(s@, from as int) == crate::grammar::find_pipe(s@, i as int),
        decreases s@.len() - i,
    {
        i = i + 1;
    }
    i
}

/// First position where `c` occurs twice in a row, or the length.
fn scan_double(s: &Vec<char>, from: usize, c: char) -> (r: usize)
    requires
        from <= s@.len(),
    ensures
        from <= r <= s@.len(),
        r as int == crate::grammar::find_double(s@, from as int, c),
    decreases s@.len() - from,
{
    let mut i: usize = from;
    let mut found: bool = false;
    while !found && i < s.len()
        invariant
            from <= i <= s@.len(),
            crate::grammar::find_double(s@, from as int, c) == if found {
                i as int
            } else {
                crate::grammar::find_double(s@, i as int, c)
            },
        decreases s@.len() - i + (if found {
            0int
        } else {
            1int
        }),
    {
        if s.len() - i >= 2 && s[i] == c && s[i + 1] == c {
            found = true;
        } else {
            i = i + 1;
        }
    }
    i
}

/// First position where `c` occurs three times in a row, or the length.
fn scan_triple(s: &Vec<char>, from: usize, c: char) -> (r: usize)
    requires
        from <= s@.len(),
    ensures
        from <= r <= s@.len(),
        r as int == crate::grammar::find_triple(s@, from as int, c),
    decreases s@.len() - from,
{
    let mut i: usize = from;
    let mut found: bool = false;
    while !found && i < s.len()
        invariant
            from <= i <= s@.len(),
            crate::grammar::find_triple(s@, from as int, c) == if found {
                i as int
            } else {
                crate::grammar::find_triple(s@, i as int, c)
            },
        decreases s@.len() - i + (if found {
            0int
        } else {
            1int
        }),
    {
        if s.len() - i >= 3 && s[i] == c && s[i + 1] == c && s[i + 2] == c {
            found = true;
        } else {
            i = i + 1;
        }
    }
    i
}

/// The plain text content an element holds, for relating the text
/// production to the grammar.
pub open spec fn text_content(n: Node) -> Seq<char> {
    match n.element {
        El::Text(t) => t@,
        _ => Seq::empty(),
    }
}

/// Whether a newline comes before any non-whitespace character.
pub open spec fn nl_before_solid(s: Seq<char>, i: int) -> bool
    decreases s.len() - i,
{
    if i < 0 || i >= s.len() {
        false
    } else if s[i] == '\n' {
        true
    } else if is_ws_char(s[i]) {
        nl_before_solid(s, i + 1)
    } else {
        false
    }
}

fn starts_with_new_line(s: &Vec<char>, from: usize) -> (r: bool)
    requires
        from <= s@.len(),
    ensures
        r == nl_before_solid(s@, from as int),
    decreases s@.len() - from,
{
    let mut i: usize = from;
    while i < s.len() && s[i] != '\n' && is_ws(s[i])
        invariant
            from <= i <= s@.len(),
            nl_before_solid(s@, from as int) == nl_before_solid(s@, i as int),
        decreases s@.len() - i,
    {
        i = i + 1;
    }
    i < s.len() && s[i] == '\n'
}

/// Whether a fully blank line (two newlines separated only by blanks) comes
/// before any non-whitespace character.
pub open spec fn empty_line_ahead(s: Seq<char>, i: int, line_passed: bool) -> bool
    decreases s.len() - i,
{
    if i < 0 || i >= s.len() {
        false
    } else if s[i] == '\n' {
        if line_passed {
            true
        } else {
            empty_line_ahead(s, i + 1, true)
        }
    } else if is_ws_char(s[i]) {
        empty_line_ahead(s, i + 1, line_passed)
    } else {
        false
    }
}

fn starts_with_empty_line(s: &Vec<char>, from: usize) -> (r: bool)
    requires
        from <= s@.len(),
    ensures
        r == empty_line_ahead(s@, from as int, false),
    decreases s@.len() - from,
{
    let mut i: usize = from;
    let mut line_passed: bool = false;
    while i < s.len() && (s[i] == '\n' || is_ws(s[i]))
        invariant
            from <= i <= s@.len(),
            empty_line_ahead(s@, from as int, false) == empty_line_ahead(
                s@,
                i as int,
                line_passed,
            ),
        decreases s@.len() - i,
    {
        if s[i] == '\n' {
            if line_passed {
                return true;
            }
            line_passed = true;
        }
        i = i + 1;
    }
    false
}

/// The number of whitespace characters before the next `*` marker on its
/// line, counting from `i` with `n` already seen, or nothing when another
/// character or the end of input comes first.
pub open spec fn spec_lps(s: Seq<char>, i: int, n: int) -> Option<int>
    decreases s.len() - i,
{
    if i < 0 || i >= s.len() {
        None
    } else if s[i] == '*' {
        Some(n)
    } else if s[i] == '\n' {
        spec_lps(s, i + 1, 0)
    } else if is_ws_char(s[i]) {
        spec_lps(s, i + 1, n + 1)
    } else {
        None
    }
}

fn list_prefix_size(s: &Vec<char>, from: usize) -> (r: Option<usize>)
    requires
        from <= s@.len(),
    ensures
        match spec_lps(s@, from as int, 0) {
            Some(n) => r matches Some(m) && m == n,
            None => r is None,
        },
    decreases s@.len() - from,
{
    let mut i: usize = from;
    let mut n: usize = 0;
    while i < s.len()
        invariant
            from <= i <= s@.len(),
            n <= i,
            spec_lps(s@, from as int, 0) == spec_lps(s@, i as int, n as int),
        decreases s@.len() - i,
    {
        let c = s[i];
        if c == '*' {
            return Some(n);
        } else if c == '\n' {
            n = 0;
        } else if is_ws(c) {
            n = n + 1;
        } else {
            return None;
        }
        i = i + 1;
    }
    None
}

/// The second non-whitespace character at or after `i`, if any.
pub open spec fn nth_solid2(s: Seq<char>, i: int) -> Option<char> {
    let j1 = solid_from(s, i);
    if j1 < s.len() {
        let j2 = solid_from(s, j1 + 1);
        if j2 < s.len() {
            Some(s[j2])
        } else {
            None
        }
    } else {
        None
    }
}

fn second_solid(s: &Vec<char>, from: usize) -> (r: Option<char>)
    requires
        from <= s@.len(),
    ensures
        r == nth_solid2(s@, from as int),
{
    let j1 = scan_solid(s, from);
    if j1 < s.len() {
        let j2 = scan_solid(s, j1 + 1);
        if j2 < s.len() {
            Some(s[j2])
        } else {
            None
        }
    } else {
        None
    }
}

/// Appends a node unless it is empty; empty parses are discarded.
fn add_node(to: &mut Vec<Node>, node: Node)
    ensures
        node_empty(node) ==> final(to)@ == old(to)@,
        !node_empty(node) ==> final(to)@ == old(to)@.push(node),
{
    if !node.is_empty() {
        to.push(node);
    }
}

/// Appends a literal `!` to a text node's buffer.
fn push_excl(node: &mut Node)
    requires
        old(node).element is Text,
    ensures
        final(node).attributes == old(node).attributes,
        final(node).tags == old(node).tags,
        (final(node).element matches El::Text(t2) && old(node).element matches El::Text(t) && t2@
            == t@.push('!')),
{
    if let El::Text(t) = &mut node.element {
        t.push('!');
    }
}

/// Plain text: accumulates fragments until a control character, a blank
/// line, or the end of input; a lone `!` is folded into the text.
#[verifier::rlimit(80)]
fn text_at(s: &Vec<char>, i: usize) -> (r: (usize, Node))
    requires
        i <= s@.len(),
    ensures
        i <= r.0 <= s@.len(),
        r.1.element is Text,
        r.1.attributes@.len() == 0,
        r.1.tags@.len() == 0,
        crate::node::node_plain(r.1),
        r.0 as int == crate::grammar::sg_text(s@, i as int).0,
        text_content(r.1) == crate::grammar::sg_text(s@, i as int).1,
        ({
            let sol = solid_from(s@, i as int);
            (sol < s@.len() && (!is_control(s@[sol]) || (s@[sol] == '!' && nth_solid2(s@, i as int)
                != Some('[')))) ==> r.0 > i
        }),
    decreases s@.len() - i, 6int, 0int,
{
    proof {
        crate::text::lemma_solid_from_bounds(s@, i as int);
        reveal_strlit("");
    }
    let ghost sol = solid_from(s@, i as int);
    let ghost strict = sol < s@.len() && (!is_control(s@[sol]) || (s@[sol] == '!' && nth_solid2(
        s@,
        i as int,
    ) != Some('[')));
    let ghost target = crate::grammar::sg_text(s@, i as int);
    let mut node = Node::text("");
    proof {
        assert(text_content(node) =~= Seq::<char>::empty());
    }
    let mut cur: usize = i;
    loop
        invariant_except_break
            target == crate::grammar::sg_text_loop(s@, cur as int, text_content(node)),
        invariant
            i <= cur <= s@.len(),
            node.element is Text,
            node.attributes@.len() == 0,
            node.tags@.len() == 0,
            strict == (sol < s@.len() && (!is_control(s@[sol]) || (s@[sol] == '!' && nth_solid2(
                s@,
                i as int,
            ) != Some('[')))),
            sol == solid_from(s@, i as int),
            strict ==> (cur > i || cur == i),
            target == crate::grammar::sg_text(s@, i as int),
        ensures
            i <= cur <= s@.len(),
            node.element is Text,
            node.attributes@.len() == 0,
            node.tags@.len() == 0,
            strict ==> cur > i,
            (cur as int, text_content(node)) == crate::grammar::sg_text(s@, i as int),
        decreases s@.len() - cur,
    {
        let ghost buf = text_content(node);
        let start = scan_solid(s, cur);
        let stop = scan_break(s, start);
        proof {
            crate::text::lemma_solid_from_bounds(s@, cur as int);
            if cur == i && start < s.len() {
                assert(start == sol);
            }
        }
        let chunk = string_range(s, start, stop);
        node.add_text(chunk.as_str());
        let ghost buf2 = text_content(node);
        proof {
            assert(buf2 == crate::node::add_text_view(buf, s@.subrange(start as int, stop as int)));
        }
        let ghost cur_before = cur;
        cur = stop;
        // A control character interrupts the text; a lone `!` is literal.
        let sol2 = scan_solid(s, cur);
        if sol2 < s.len() && is_control_exec(s[sol2]) {
            if s[sol2] == '!' {
                let n2 = second_solid(s, cur);
                if n2 == Some('[') {
                    proof {
                        if strict && cur <= i {
                            assert(start == sol && stop > sol);
                        }
                        assert(target == (cur as int, text_content(node)));
                    }
                    break ;
                } else {
                    push_excl(&mut node);
                    if s.len() - cur <= 1 {
                        cur = s.len();
                    } else {
                        cur = cur + 1;
                    }
                    proof {
                        if strict && cur <= i {
                            assert(false);
                        }
                        assert(text_content(node) == buf2.push('!'));
                    }
                }
            } else {
                proof {
                    if strict && cur <= i {
                        assert(cur == i && start == sol);
                        assert(stop > sol);
                    }
                    assert(target == (cur as int, text_content(node)));
                }
                break ;
            }
        }
        if starts_with_empty_line(s, cur) {
            proof {
                if strict && cur <= i {
                    assert(start == sol && stop > sol);
                }
                assert(target == (cur as int, text_content(node)));
            }
            break ;
        }
        if chars_blank(s, cur) {
            proof {
                if strict && cur <= i {
                    assert(start == sol && stop > sol);
                }
                assert(target == (cur as int, text_content(node)));
            }
            break ;
        }
        proof {
            if cur <= cur_before {
                assert(false);
            }
            assert(target == crate::grammar::sg_text_loop(s@, cur as int, text_content(node)));
        }
    }
    (cur, node)
}

/// A heading: the run of `#` sets the level, capped at 6; the rest of the
/// line is parsed as inline content.
fn heading_at(s: &Vec<char>, i: usize) -> (r: (usize, Node))
    requires
        i <= s@.len(),
        solid_from(s@, i as int) < s@.len(),
        s@[solid_from(s@, i as int)] == '#',
    ensures
        i < r.0 <= s@.len(),
        (r.1.element matches El::Heading(level, _) && 1 <= level <= 6 && level as int == ({
            let run = run_len(s@, solid_from(s@, i as int), '#');
            if run > 6 {
                6int
            } else {
                run
            }
        })),
        r.1.attributes@.len() == 0,
        r.1.tags@.len() == 0,
        crate::node::node_plain(r.1),
        r.0 as int == crate::grammar::sg_heading(s@, i as int).0,
        crate::grammar::el_view(r.1.element) == crate::grammar::sg_heading(s@, i as int).1,
    decreases s@.len() - i, 6int, 0int,
{
    proof {
        crate::text::lemma_solid_from_bounds(s@, i as int);
    }
    let sol = scan_solid(s, i);
    proof {
        assert(sol < s@.len() && s@[sol as int] == '#');
    }
    let he = scan_not_char(s, sol, '#');
    proof {
        assert(he > sol);
    }
    let hashes = he - sol;
    let level: u8 = if hashes >= 6 {
        6
    } else {
        hashes as u8
    };
    let sol2 = scan_solid(s, he);
    let cut = scan_char(s, sol2, '\n');
    let line = crate::text::subrange_chars(s, sol2, cut);
    proof {
        assert(line@.len() < s@.len() - i);
    }
    let children = parse_run(&line, false);
    let r = (cut, Node::heading(level, children));
    proof {
        assert(crate::grammar::el_view(r.1.element) == crate::grammar::sg_heading(
            s@,
            i as int,
        ).1);
    }
    r
}

/// A styled span: `**bold**`, `*italic*` or `~strikethrough~`.
fn style_at(s: &Vec<char>, i: usize) -> (r: (usize, Node))
    requires
        i <= s@.len(),
        solid_from(s@, i as int) < s@.len(),
        s@[solid_from(s@, i as int)] == '*' || s@[solid_from(s@, i as int)] == '~',
    ensures
        i < r.0 <= s@.len(),
        r.1.element is Style,
        r.1.attributes@.len() == 0,
        r.1.tags@.len() == 0,
        crate::node::node_plain(r.1),
        r.0 as int == crate::grammar::sg_style(s@, i as int).0,
        crate::grammar::el_view(r.1.element) == crate::grammar::sg_style(s@, i as int).1,
    decreases s@.len() - i, 6int, 0int,
{
    proof {
        crate::text::lemma_solid_from_bounds(s@, i as int);
    }
    let sol = scan_solid(s, i);
    if s.len() - sol >= 2 && s[sol] == '*' && s[sol + 1] == '*' {
        // Bold: text up to the closing `**`.
        let cut = scan_double(s, sol + 2, '*');
        let text = crate::text::subrange_chars(s, sol + 2, cut);
        proof {
            assert(text@.len() < s@.len() - i);
        }
        let children = parse_run(&text, false);
        let rest = if s.len() - cut <= 2 {
            s.len()
        } else {
            cut + 2
        };
        (rest, Node::style(Style::Bold, children))
    } else if s[sol] == '*' {
        let cut = scan_char(s, sol + 1, '*');
        let text = crate::text::subrange_chars(s, sol + 1, cut);
        proof {
            assert(text@.len() < s@.len() - i);
        }
        let children = parse_run(&text, false);
        let rest = if s.len() - cut <= 1 {
            s.len()
        } else {
            cut + 1
        };
        (rest, Node::style(Style::Italic, children))
    } else {
        let cut = scan_char(s, sol + 1, '~');
        let text = crate::text::subrange_chars(s, sol + 1, cut);
        proof {
            assert(text@.len() < s@.len() - i);
        }
        let children = parse_run(&text, false);
        let rest = if s.len() - cut <= 1 {
            s.len()
        } else {
            cut + 1
        };
        (rest, Node::style(Style::Strikethrough, children))
    }
}

/// Inline code or a fenced code block, with an optional language tag.
fn code_at(s: &Vec<char>, i: usize) -> (r: (usize, Node))
    requires
        i < s@.len(),
    ensures
        i < r.0 <= s@.len(),
        r.1.element is Code || r.1.element is Codeblock,
        r.1.attributes@.len() == 0,
        r.1.tags@.len() == 0,
        crate::node::node_plain(r.1),
        r.0 as int == crate::grammar::sg_code(s@, i as int).0,
        crate::grammar::el_view(r.1.element) == crate::grammar::sg_code(s@, i as int).1,
    decreases s@.len() - i, 6int, 0int,
{
    if s.len() - i >= 3 && s[i] == '`' && s[i + 1] == '`' && s[i + 2] == '`' {
        let cut = scan_triple(s, i + 3, '`');
        let code = crate::text::trim_chars(&crate::text::subrange_chars(s, i + 3, cut));
        let nl = scan_char(&code, 0, '\n');
        if nl < code.len() {
            // A language tag is extracted only when the whole first line of
            // the fence is alphanumeric.
            let k = scan_not_alnum(&code, 0);
            if k == nl {
                let lang = string_range(&code, 0, nl);
                let rest_code = string_range(&code, nl, code.len());
                return (cut, Node::codeblock(Some(lang.as_str()), rest_code.as_str()));
            }
        }
        let whole = crate::text::string_from(&code);
        (cut, Node::codeblock(None, whole.as_str()))
    } else {
        let cut = scan_char(s, i + 1, '`');
        let code = string_range(s, i + 1, cut);
        (cut.max(i + 1), Node::code(code.as_str()))
    }
}

/// A link: `[text](url)`; without a parenthesised URL the bracketed text is
/// folded back into the surrounding plain text.
fn link_at(s: &Vec<char>, i: usize) -> (r: (usize, Node))
    requires
        i <= s@.len(),
        solid_from(s@, i as int) < s@.len(),
    ensures
        i < r.0 <= s@.len(),
        r.1.element is Link || r.1.element is Text,
        r.1.attributes@.len() == 0,
        r.1.tags@.len() == 0,
        crate::node::node_plain(r.1),
        r.0 as int == crate::grammar::sg_link(s@, i as int).0,
        crate::grammar::el_view(r.1.element) == crate::grammar::sg_link(s@, i as int).1,
    decreases s@.len() - i, 6int,
{
    proof {
        crate::text::lemma_solid_from_bounds(s@, i as int);
    }
    let sol = scan_solid(s, i);
    let cur = if sol < s.len() {
        sol + 1
    } else {
        s.len()
    };
    let cut = scan_char(s, cur, ']');
    let cur2 = if cut < s.len() {
        cut + 1
    } else {
        cut
    };
    let sol2 = scan_solid(s, cur2);
    if sol2 < s.len() && s[sol2] == '(' {
        let cur3 = sol2 + 1;
        let close = scan_char(s, cur3, ')');
        if close < s.len() {
            let text = string_range(s, cur, cut);
            let url = string_range(s, cur3, close);
            return (close + 1, Node::link(text.as_str(), url.as_str()));
        }
        // No closing parenthesis: everything was consumed looking for one.
        let (after, tnode) = text_at(s, s.len());
        proof {
            assert(i < s@.len());
        }
        return merge_literal(s, i, s.len(), after, tnode);
    }
    let (after, tnode) = text_at(s, cur2);
    proof {
        assert(cur2 > i);
    }
    merge_literal(s, i, cur2, after, tnode)
}

/// Recovery for a bracketed run that is not a link: re-emits the literal
/// consumed text merged with the following plain text.
fn merge_literal(s: &Vec<char>, i: usize, consumed_to: usize, after: usize, tnode: Node) -> (r: (
    usize,
    Node,
))
    requires
        i < consumed_to <= s@.len(),
        consumed_to <= after <= s@.len(),
        tnode.element is Text,
    ensures
        i < r.0 <= s@.len(),
        r.1.element is Link || r.1.element is Text,
        r.1.attributes@.len() == 0,
        r.1.tags@.len() == 0,
        crate::node::node_plain(r.1),
        r.0 == after,
        crate::grammar::el_view(r.1.element) == crate::grammar::sg_merge(
            s@,
            i as int,
            consumed_to as int,
            text_content(tnode),
        ),
{
    let literal = crate::text::trim_chars(&crate::text::subrange_chars(s, i, consumed_to));
    let ghost lit0 = literal@;
    match &tnode.element {
        El::Text(t) => {
            let tv = chars_of(t.as_str());
            let tt = crate::text::trim_chars(&tv);
            let mut merged = literal;
            merged.push(' ');
            let mut k: usize = 0;
            while k < tt.len()
                invariant
                    k <= tt@.len(),
                    merged@ == lit0 + seq![' '] + tt@.subrange(0, k as int),
                decreases tt@.len() - k,
            {
                merged.push(tt[k]);
                proof {
                    assert(merged@ =~= lit0 + seq![' '] + tt@.subrange(0, k + 1 as int));
                }
                k = k + 1;
            }
            proof {
                assert(merged@ =~= lit0 + seq![' '] + tt@);
            }
            let ms = crate::text::string_from(&merged);
            (after, Node::text(ms.as_str()))
        },
        _ => (after, tnode),
    }
}

/// An image: parsed as a link after the `!`, then reinterpreted.
fn image_at(s: &Vec<char>, i: usize) -> (r: (usize, Node))
    requires
        i <= s@.len(),
        solid_from(s@, i as int) < s@.len(),
    ensures
        i < r.0 <= s@.len(),
        r.1.element is Image || r.1.element is Link || r.1.element is Text,
        r.1.attributes@.len() == 0,
        r.1.tags@.len() == 0,
        crate::node::node_plain(r.1),
        r.0 as int == crate::grammar::sg_image(s@, i as int).0,
        crate::grammar::el_view(r.1.element) == crate::grammar::sg_image(s@, i as int).1,
    decreases s@.len() - i, 7int,
{
    proof {
        crate::text::lemma_solid_from_bounds(s@, i as int);
    }
    let sol = scan_solid(s, i);
    let j = if sol < s.len() {
        sol + 1
    } else {
        s.len()
    };
    if j >= s.len() {
        // Nothing follows the marker; treat it as empty text.
        let (after, tnode) = text_at(s, s.len());
        return (s.len().max(i + 1), tnode);
    }
    proof {
        if solid_from(s@, j as int) >= s@.len() {
            crate::text::lemma_solid_from_bounds(s@, j as int);
        }
    }
    if chars_blank(s, j) {
        let (after, tnode) = text_at(s, s.len());
        return (s.len().max(i + 1), tnode);
    }
    let (cur, result) = link_at(s, j);
    match &result.element {
        El::Link(_, _) => {
            let text = result.el_text().unwrap();
            let url = result.el_url().unwrap();
            let img = Node::image(text, url);
            (cur, img)
        },
        _ => (cur, result),
    }
}

/// One table row: cells split on `|`, each parsed as inline content.
fn row_at(s: &Vec<char>, i: usize) -> (r: (usize, Vec<Vec<Node>>))
    requires
        i <= s@.len(),
    ensures
        i <= r.0 <= s@.len(),
        find_char(s@, i as int, '|') < s@.len() ==> r.0 > i,
        r.0 as int == crate::grammar::sg_row(s@, i as int).0,
        crate::grammar::cols_view(r.1@) == crate::grammar::sg_row(s@, i as int).1,
        crate::node::cell_all_plain(r.1@),
    decreases s@.len() - i, 5int, 0int,
{
    proof {
        lemma_find_char(s@, i as int, '|');
    }
    let ghost target = crate::grammar::sg_row(s@, i as int);
    let cut = scan_char(s, i, '|');
    let mut cur = if cut < s.len() {
        cut + 1
    } else {
        cut
    };
    let mut cols: Vec<Vec<Node>> = Vec::new();
    proof {
        assert(crate::grammar::cols_view(cols@) =~= Seq::<Seq<crate::grammar::SEl>>::empty());
    }
    while cur < s.len() && s[cur] != '\n'
        invariant
            i <= cur <= s@.len(),
            i < cur || cur >= s@.len(),
            crate::node::cell_all_plain(cols@),
            target == crate::grammar::sg_row(s@, i as int),
            target == crate::grammar::sg_row_loop(
                s@,
                i as int,
                cur as int,
                crate::grammar::cols_view(cols@),
            ),
        decreases s@.len() - cur,
    {
        let ghost pre = crate::grammar::cols_view(cols@);
        let stop = scan_pipe_or_nl(s, cur);
        let cell = crate::text::subrange_chars(s, cur, stop);
        proof {
            assert(cell@.len() < s@.len() - i);
        }
        let parsed = parse_run(&cell, false);
        proof {
            crate::grammar::lemma_cols_view_push(cols@, parsed);
        }
        cols.push(parsed);
        cur = stop;
        if cur < s.len() && s[cur] == '|' {
            cur = cur + 1;
        }
        proof {
            assert(target == crate::grammar::sg_row_loop(
                s@,
                i as int,
                cur as int,
                crate::grammar::cols_view(cols@),
            ));
        }
    }
    (cur, cols)
}

/// A table: rows are read while each following line begins with `|`.
fn table_at(s: &Vec<char>, i: usize) -> (r: (usize, Node))
    requires
        i <= s@.len(),
        solid_from(s@, i as int) < s@.len(),
        s@[solid_from(s@, i as int)] == '|',
    ensures
        i < r.0 <= s@.len(),
        r.1.element is Table,
        r.1.attributes@.len() == 0,
        r.1.tags@.len() == 0,
        crate::node::node_plain(r.1),
        r.0 as int == crate::grammar::sg_table(s@, i as int).0,
        crate::grammar::el_view(r.1.element) == crate::grammar::sg_table(s@, i as int).1,
    decreases s@.len() - i, 6int, 0int,
{
    proof {
        crate::text::lemma_solid_from_bounds(s@, i as int);
        lemma_find_char(s@, i as int, '|');
    }
    let ghost target = crate::grammar::sg_table_loop(
        s@,
        i as int,
        i as int,
        Seq::<Seq<Seq<crate::grammar::SEl>>>::empty(),
    );
    let mut rows: Vec<Vec<Vec<Node>>> = Vec::new();
    let mut cur: usize = i;
    let mut go: bool = true;
    proof {
        assert(crate::grammar::rows_view(rows@) =~= Seq::<
            Seq<Seq<crate::grammar::SEl>>,
        >::empty());
    }
    while go
        invariant
            i <= cur <= s@.len(),
            crate::node::rows_all_plain(rows@),
            go ==> find_char(s@, cur as int, '|') < s@.len() || cur == i,
            go && cur == i ==> find_char(s@, i as int, '|') < s@.len(),
            !go ==> cur > i,
            target == crate::grammar::sg_table_loop(
                s@,
                i as int,
                i as int,
                Seq::<Seq<Seq<crate::grammar::SEl>>>::empty(),
            ),
            go ==> target == crate::grammar::sg_table_loop(
                s@,
                i as int,
                cur as int,
                crate::grammar::rows_view(rows@),
            ),
            !go ==> target == (cur as int, crate::grammar::rows_view(rows@)),
        decreases s@.len() - cur + (if go {
            1int
        } else {
            0int
        }),
    {
        proof {
            lemma_find_char(s@, cur as int, '|');
        }
        let before = cur;
        let (nc, row) = row_at(s, cur);
        cur = nc;
        proof {
            crate::grammar::lemma_rows_view_push(rows@, row);
        }
        rows.push(row);
        let more = cur < s.len() && s[cur] == '\n' && {
            let sol = scan_solid(s, cur);
            sol < s.len() && s[sol] == '|'
        };
        if more {
            proof {
                crate::text::lemma_solid_from_bounds(s@, cur as int);
                lemma_find_char(s@, cur as int, '|');
                let sol = solid_from(s@, cur as int);
                assert(s@[sol] == '|');
                assert(find_char(s@, cur as int, '|') <= sol);
            }
            go = true;
        } else {
            go = false;
        }
        proof {
            assert(cur > before || !go);
            assert(cur > i || !go || before == i);
            if go && cur <= before {
                assert(false);
            }
        }
    }
    let r = (cur, Node::table(rows));
    proof {
        assert(crate::grammar::el_view(r.1.element) == crate::grammar::sg_table(
            s@,
            i as int,
        ).1);
    }
    r
}

/// One list item: content up to a marker line at the same or shallower
/// depth, a blank line, or the end of input; deeper markers nest.
#[verifier::rlimit(80)]
fn item_at(s: &Vec<char>, i: usize) -> (r: (usize, Node))
    requires
        i <= s@.len(),
        spec_lps(s@, i as int, 0) is Some,
    ensures
        i < r.0 <= s@.len(),
        r.1.element is Item,
        r.1.attributes@.len() == 0,
        r.1.tags@.len() == 0,
        crate::node::node_plain(r.1),
        r.0 as int == crate::grammar::sg_item(s@, i as int).0,
        crate::grammar::el_view(r.1.element) == crate::grammar::sg_item(s@, i as int).1,
    decreases s@.len() - i, 5int, 0int,
{
    let prefix_size = list_prefix_size(s, i);
    let ghost sprefix = spec_lps(s@, i as int, 0);
    let mut nodes: Vec<Node> = Vec::new();
    proof {
        lemma_find_char(s@, i as int, '*');
        lemma_lps_find(s@, i as int, 0);
        assert(crate::grammar::views(nodes@) =~= Seq::<crate::grammar::SEl>::empty());
    }
    let star = scan_char(s, i, '*');
    let mut cur = if star < s.len() {
        star + 1
    } else {
        star
    };
    proof {
        assert(star < s@.len());
    }
    let ghost cstart = cur as int;
    let ghost target = crate::grammar::sg_item_outer(
        s@,
        cstart,
        cstart,
        Seq::<crate::grammar::SEl>::empty(),
        sprefix,
    );
    while !chars_blank(s, cur) && !starts_with_empty_line(s, cur)
        invariant_except_break
            target == crate::grammar::sg_item_outer(
                s@,
                cstart,
                cur as int,
                crate::grammar::views(nodes@),
                sprefix,
            ),
        invariant
            i < cur <= s@.len(),
            i < cstart <= s@.len(),
            cstart <= cur,
            crate::node::nodes_plain(nodes@),
            cstart == (if find_char(s@, i as int, '*') < s@.len() {
                find_char(s@, i as int, '*') + 1
            } else {
                find_char(s@, i as int, '*')
            }),
            sprefix == spec_lps(s@, i as int, 0),
            match sprefix {
                Some(n) => prefix_size matches Some(m) && m == n,
                None => prefix_size is None,
            },
            target == crate::grammar::sg_item_outer(
                s@,
                cstart,
                cstart,
                Seq::<crate::grammar::SEl>::empty(),
                sprefix,
            ),
        ensures
            target == (cur as int, crate::grammar::views(nodes@)),
        decreases s@.len() - cur,
    {
        let ghost cur0 = cur;
        let ghost acc0 = crate::grammar::views(nodes@);
        while cur < s.len() && !(s[cur] == '\n') && !chars_blank(s, cur)
            invariant
                i < cur <= s@.len(),
                cur0 <= cur,
                cstart <= cur0,
                crate::node::nodes_plain(nodes@),
                crate::grammar::sg_item_inner(s@, cstart, cur0 as int, acc0)
                    == crate::grammar::sg_item_inner(
                    s@,
                    cstart,
                    cur as int,
                    crate::grammar::views(nodes@),
                ),
            decreases s@.len() - cur,
        {
            let (nc, node) = node_at(s, cur);
            proof {
                crate::text::lemma_solid_from_bounds(s@, cur as int);
                crate::grammar::lemma_views_push(nodes@, node);
                crate::grammar::lemma_empty_view(node.element);
            }
            cur = nc;
            add_node(&mut nodes, node);
        }
        proof {
            assert(crate::grammar::sg_item_inner(s@, cstart, cur0 as int, acc0) == (
            cur as int,
            crate::grammar::views(nodes@),
            ));
        }
        let sol = scan_solid(s, cur);
        if sol < s.len() && s[sol] == '*' {
            let lp = list_prefix_size(s, cur);
            let le = match (lp, prefix_size) {
                (Some(a), Some(b)) => a <= b,
                (None, _) => true,
                (Some(_), None) => false,
            };
            if le {
                proof {
                    assert(target == (cur as int, crate::grammar::views(nodes@)));
                    assert(crate::grammar::sg_item(s@, i as int) == (
                    target.0,
                    crate::grammar::SEl::Item(target.1),
                    ));
                }
                return (cur, Node::item(nodes));
            }
        }
        if starts_with_empty_line(s, cur) {
            proof {
                assert(target == (cur as int, crate::grammar::views(nodes@)));
            }
            break ;
        }
        if chars_blank(s, cur) {
            // A blank tail parses to nothing and consumes the rest.
            cur = s.len();
            proof {
                assert(target == (cur as int, crate::grammar::views(nodes@)));
            }
            break ;
        }
        proof {
            crate::text::lemma_solid_from_bounds(s@, cur as int);
        }
        let (nc, node) = node_line_start_at(s, cur);
        proof {
            crate::grammar::lemma_views_push(nodes@, node);
            crate::grammar::lemma_empty_view(node.element);
        }
        cur = nc;
        add_node(&mut nodes, node);
    }
    let r = (cur, Node::item(nodes));
    proof {
        assert(crate::grammar::el_view(r.1.element) == crate::grammar::sg_item(s@, i as int).1);
    }
    r
}

/// A list: items are read while the marker depth stays the same.
#[verifier::rlimit(80)]
fn list_at(s: &Vec<char>, i: usize) -> (r: (usize, Node))
    requires
        i <= s@.len(),
        spec_lps(s@, i as int, 0) is Some,
    ensures
        i < r.0 <= s@.len(),
        (r.1.element matches El::List(items) && forall|k: int|
            0 <= k < items@.len() ==> (#[trigger] items@[k]).element is Item),
        r.1.attributes@.len() == 0,
        r.1.tags@.len() == 0,
        crate::node::node_plain(r.1),
        r.0 as int == crate::grammar::sg_list(s@, i as int).0,
        crate::grammar::el_view(r.1.element) == crate::grammar::sg_list(s@, i as int).1,
    decreases s@.len() - i, 6int, 0int,
{
    let mut nodes: Vec<Node> = Vec::new();
    let prefix_size = list_prefix_size(s, i);
    let ghost sprefix = spec_lps(s@, i as int, 0);
    let ghost target = crate::grammar::sg_list_loop(
        s@,
        i as int,
        i as int,
        Seq::<crate::grammar::SEl>::empty(),
        sprefix,
    );
    let mut cur: usize = i;
    let mut go: bool = true;
    proof {
        assert(crate::grammar::views(nodes@) =~= Seq::<crate::grammar::SEl>::empty());
    }
    while go
        invariant
            i <= cur <= s@.len(),
            crate::node::nodes_plain(nodes@),
            spec_lps(s@, i as int, 0) is Some,
            sprefix == spec_lps(s@, i as int, 0),
            match spec_lps(s@, i as int, 0) {
                Some(n) => prefix_size matches Some(m) && m == n,
                None => prefix_size is None,
            },
            !go ==> cur > i,
            target == crate::grammar::sg_list_loop(
                s@,
                i as int,
                i as int,
                Seq::<crate::grammar::SEl>::empty(),
                sprefix,
            ),
            go ==> target == crate::grammar::sg_list_loop(
                s@,
                i as int,
                cur as int,
                crate::grammar::views(nodes@),
                sprefix,
            ),
            !go ==> target == (cur as int, crate::grammar::views(nodes@)),
        decreases s@.len() - cur + (if go {
            1int
        } else {
            0int
        }),
    {
        let lp = list_prefix_size(s, cur);
        let same = match (lp, &prefix_size) {
            (Some(a), Some(b)) => a == *b,
            _ => false,
        };
        if same {
            let (nc, node) = item_at(s, cur);
            proof {
                crate::grammar::lemma_views_push(nodes@, node);
                crate::grammar::lemma_empty_view(node.element);
            }
            cur = nc;
            add_node(&mut nodes, node);
        } else {
            go = false;
            proof {
                if cur <= i {
                    assert(cur == i);
                    assert(false);
                }
            }
        }
    }
    let listed = Node::list(nodes);
    let r = (cur, listed);
    proof {
        let cs = crate::grammar::views(nodes@);
        crate::grammar::lemma_views_index(nodes@);
        if let El::List(ref items) = r.1.element {
            crate::grammar::lemma_views_index(items@);
            assert forall|k: int| 0 <= k < items@.len() implies crate::grammar::views(items@)[k]
                == crate::grammar::sg_wrap_items(cs)[k] by {
                if nodes@[k].element is Item {
                } else {
                    assert(items@[k].element matches El::Item(inner) && inner@.len() == 1
                        && inner@[0] == nodes@[k]);
                    if let El::Item(ref inner) = items@[k].element {
                        crate::grammar::lemma_views_index(inner@);
                        assert(crate::grammar::views(inner@) =~= seq![
                            crate::grammar::node_view(nodes@[k]),
                        ]);
                    }
                }
            }
            assert(crate::grammar::views(items@) =~= crate::grammar::sg_wrap_items(cs));
            assert forall|k: int| 0 <= k < items@.len() implies crate::node::node_plain(
                #[trigger] items@[k],
            ) by {
                if nodes@[k].element is Item {
                    assert(crate::node::node_plain(nodes@[k]));
                } else {
                    assert(crate::node::node_plain(nodes@[k]));
                    if let El::Item(ref inner) = items@[k].element {
                        assert forall|j: int| 0 <= j < inner@.len() implies crate::node::node_plain(
                            #[trigger] inner@[j],
                        ) by {
                            assert(inner@[j] == nodes@[k]);
                        }
                    }
                }
            }
        }
        assert(crate::grammar::el_view(r.1.element) == crate::grammar::sg_list(s@, i as int).1);
    }
    r
}

/// A defined list prefix means a `*` marker exists ahead.
proof fn lemma_lps_find(s: Seq<char>, i: int, n: int)
    requires
        0 <= i <= s.len(),
        spec_lps(s, i, n) is Some,
    ensures
        find_char(s, i, '*') < s.len(),
    decreases s.len() - i,
{
    if i < s.len() && s[i] != '*' {
        if s[i] == '\n' {
            lemma_lps_find(s, i + 1, 0);
        } else {
            lemma_lps_find(s, i + 1, n + 1);
        }
    }
}

/// If the first non-whitespace character is `*`, only blanks precede it, so
/// a list prefix size exists.
proof fn lemma_lps_star(s: Seq<char>, i: int, n: int)
    requires
        0 <= i <= s.len(),
        solid_from(s, i) < s.len(),
        s[solid_from(s, i)] == '*' || s[solid_from(s, i)] == '|',
    ensures
        s[solid_from(s, i)] == '*' ==> spec_lps(s, i, n) is Some,
        find_char(s, i, s[solid_from(s, i)]) <= solid_from(s, i),
    decreases s.len() - i,
{
    if i < s.len() && is_ws_char(s[i]) {
        if s[i] == '\n' {
            lemma_lps_star(s, i + 1, 0);
        } else {
            lemma_lps_star(s, i + 1, n + 1);
        }
    }
}

/// Dispatch: skips leading blank lines, then picks a production from the
/// first non-whitespace character and the line-start flag.
#[verifier::rlimit(100)]
#[verifier::spinoff_prover]
fn dispatch_at(s: &Vec<char>, i: usize, at_line_start: bool) -> (r: (usize, Node))
    requires
        i <= s@.len(),
    ensures
        i <= r.0 <= s@.len(),
        i < s@.len() ==> r.0 > i,
        solid_from(s@, i as int) == s@.len() ==> r.1.element is Empty,
        r.1.attributes@.len() == 0,
        r.1.tags@.len() == 0,
        crate::node::node_plain(r.1),
        r.0 as int == crate::grammar::sg_dispatch(s@, i as int, at_line_start).0,
        crate::grammar::el_view(r.1.element) == crate::grammar::sg_dispatch(
            s@,
            i as int,
            at_line_start,
        ).1,
    decreases s@.len() - i, 7int, 0int,
{
    let mut cur: usize = i;
    while starts_with_new_line(s, cur)
        invariant
            i <= cur <= s@.len(),
            crate::grammar::skip_blank_lines(s@, i as int) == crate::grammar::skip_blank_lines(
                s@,
                cur as int,
            ),
        decreases s@.len() - cur,
    {
        proof {
            lemma_nl_cut(s@, cur as int);
            lemma_find_char(s@, cur as int, '\n');
        }
        let cut = scan_char(s, cur, '\n');
        cur = if cut < s.len() {
            cut + 1
        } else {
            cut
        };
    }
    proof {
        assert(crate::grammar::skip_blank_lines(s@, i as int) == cur as int);
    }
    let sol = scan_solid(s, cur);
    proof {
        crate::text::lemma_solid_from_bounds(s@, cur as int);
        if solid_from(s@, i as int) == s@.len() {
            crate::text::lemma_blank_suffix(s@, i as int, cur as int);
        }
        if sol < s.len() && solid_from(s@, i as int) == s@.len() {
            assert(false);
        }
    }
    if sol >= s.len() {
        return (s.len(), Node::empty());
    }
    let ghost sd = crate::grammar::sg_dispatch(s@, i as int, at_line_start);
    let c = s[sol];
    if c == '`' {
        proof {
            assert(sd == crate::grammar::sg_code(s@, cur as int));
        }
        code_at(s, cur)
    } else if c == '#' {
        proof {
            assert(sd == crate::grammar::sg_heading(s@, cur as int));
        }
        heading_at(s, cur)
    } else if c == '*' && at_line_start {
        proof {
            lemma_lps_star(s@, cur as int, 0);
            assert(sd == crate::grammar::sg_list(s@, cur as int));
        }
        list_at(s, cur)
    } else if c == '*' || c == '~' {
        proof {
            assert(sd == crate::grammar::sg_style(s@, cur as int));
        }
        style_at(s, cur)
    } else if c == '[' {
        proof {
            assert(sd == crate::grammar::sg_link(s@, cur as int));
        }
        link_at(s, cur)
    } else if c == '!' && second_solid(s, cur) == Some('[') {
        proof {
            assert(sd == crate::grammar::sg_image(s@, cur as int));
        }
        image_at(s, cur)
    } else if c == '|' && at_line_start {
        proof {
            lemma_lps_star(s@, cur as int, 0);
            assert(sd == crate::grammar::sg_table(s@, cur as int));
        }
        table_at(s, cur)
    } else {
        let (nc, node) = text_at(s, cur);
        proof {
            assert(crate::grammar::el_view(node.element) == crate::grammar::SEl::Text(
                text_content(node),
            ));
            assert(sd == (
            crate::grammar::sg_text(s@, cur as int).0,
            crate::grammar::SEl::Text(crate::grammar::sg_text(s@, cur as int).1),
            ));
        }
        (nc, node)
    }
}

/// Under a pending newline, the cut to the newline is strictly advanced by
/// dropping it.
proof fn lemma_nl_cut(s: Seq<char>, i: int)
    requires
        0 <= i <= s.len(),
        nl_before_solid(s, i),
    ensures
        find_char(s, i, '\n') < s.len(),
    decreases s.len() - i,
{
    if i < s.len() && s[i] != '\n' {
        lemma_nl_cut(s, i + 1);
    }
}

/// One node parsed with the line-start flag forced on.
fn node_line_start_at(s: &Vec<char>, i: usize) -> (r: (usize, Node))
    requires
        i <= s@.len(),
    ensures
        i <= r.0 <= s@.len(),
        i < s@.len() ==> r.0 > i,
        solid_from(s@, i as int) == s@.len() ==> r.1.element is Empty,
        r.1.attributes@.len() == 0,
        r.1.tags@.len() == 0,
        crate::node::node_plain(r.1),
        r.0 as int == crate::grammar::sg_node_ls(s@, i as int).0,
        crate::grammar::el_view(r.1.element) == crate::grammar::sg_node_ls(s@, i as int).1,
    decreases s@.len() - i, 8int, 0int,
{
    dispatch_at(s, i, true)
}

/// One node: the line-start flag is true when no non-whitespace character
/// precedes the next newline.
fn node_at(s: &Vec<char>, i: usize) -> (r: (usize, Node))
    requires
        i <= s@.len(),
    ensures
        i <= r.0 <= s@.len(),
        i < s@.len() ==> r.0 > i,
        r.1.attributes@.len() == 0,
        r.1.tags@.len() == 0,
        crate::node::node_plain(r.1),
        r.0 as int == crate::grammar::sg_node(s@, i as int).0,
        crate::grammar::el_view(r.1.element) == crate::grammar::sg_node(s@, i as int).1,
    decreases s@.len() - i, 8int, 0int,
{
    let mut at_line_start: bool = true;
    let mut j: usize = i;
    while j < s.len() && s[j] != '\n' && is_ws(s[j])
        invariant
            i <= j <= s@.len(),
            crate::grammar::at_line_start(s@, i as int) == crate::grammar::at_line_start(
                s@,
                j as int,
            ),
        decreases s@.len() - j,
    {
        j = j + 1;
    }
    if j < s.len() && s[j] != '\n' {
        at_line_start = false;
    }
    proof {
        assert(at_line_start == crate::grammar::at_line_start(s@, i as int));
    }
    dispatch_at(s, i, at_line_start)
}

/// A full run of nodes; empty parses are dropped as they arise.
fn parse_run(s: &Vec<char>, at_line_start: bool) -> (nodes: Vec<Node>)
    ensures
        forall|j: int| 0 <= j < nodes@.len() ==> !node_empty(#[trigger] nodes@[j]),
        solid_from(s@, 0) == s@.len() ==> nodes@.len() == 0,
        crate::grammar::views(nodes@) == crate::grammar::sg_run(s@, at_line_start),
        crate::node::nodes_plain(nodes@),
    decreases s@.len(), 9int, 0int,
{
    let ghost target = crate::grammar::sg_run(s@, at_line_start);
    let mut nodes: Vec<Node> = Vec::new();
    let mut cur: usize = 0;
    proof {
        assert(crate::grammar::views(nodes@) =~= Seq::<crate::grammar::SEl>::empty());
    }
    if at_line_start {
        let (nc, node) = node_line_start_at(s, 0);
        proof {
            crate::grammar::lemma_views_push(nodes@, node);
            crate::grammar::lemma_empty_view(node.element);
        }
        cur = nc;
        add_node(&mut nodes, node);
    }
    proof {
        assert(target == crate::grammar::sg_run_loop(
            s@,
            cur as int,
            crate::grammar::views(nodes@),
        ));
    }
    while !chars_blank(s, cur)
        invariant
            cur <= s@.len(),
            forall|j: int| 0 <= j < nodes@.len() ==> !node_empty(#[trigger] nodes@[j]),
            crate::node::nodes_plain(nodes@),
            solid_from(s@, 0) == s@.len() ==> nodes@.len() == 0,
            target == crate::grammar::sg_run(s@, at_line_start),
            target == crate::grammar::sg_run_loop(
                s@,
                cur as int,
                crate::grammar::views(nodes@),
            ),
        decreases s@.len() - cur,
    {
        proof {
            crate::text::lemma_solid_from_bounds(s@, cur as int);
            if solid_from(s@, 0) == s@.len() {
                crate::text::lemma_blank_suffix(s@, 0, cur as int);
                assert(false);
            }
        }
        let (nc, node) = node_at(s, cur);
        proof {
            crate::grammar::lemma_views_push(nodes@, node);
            crate::grammar::lemma_empty_view(node.element);
        }
        cur = nc;
        add_node(&mut nodes, node);
    }
    nodes
}

/// Parses one document. Never fails: malformed constructs degrade to
/// literal text, and empty parses are discarded; blank input yields an
/// empty document.
pub fn parse_document(input: &str) -> (doc: Doc)
    ensures
        forall|j: int| 0 <= j < doc.0@.len() ==> !node_empty(#[trigger] doc.0@[j]),
        solid_from(input@, 0) == input@.len() ==> doc.0@.len() == 0,
        crate::grammar::views(doc.0@) == crate::grammar::sg_doc(input@),
        crate::node::nodes_plain(doc.0@),
{
    let v = chars_of(input);
    Doc(parse_run(&v, true))
}

/// Parses a single node from the start of the input, returning the
/// remaining text alongside it.
pub fn parse_node(input: &str) -> (r: (String, Node))
    ensures
        r.1.attributes@.len() == 0,
        r.1.tags@.len() == 0,
        crate::node::node_plain(r.1),
        crate::grammar::el_view(r.1.element) == crate::grammar::sg_node(input@, 0).1,
        r.0@ == input@.subrange(crate::grammar::sg_node(input@, 0).0, input@.len() as int),
{
    let v = chars_of(input);
    let (cur, node) = node_at(&v, 0);
    let rest = string_range(&v, cur, v.len());
    proof {
        assert(rest@ == input@.subrange(cur as int, input@.len() as int));
    }
    (rest, node)
}

/// Parses one list item from input beginning with a `*` marker line.
pub fn parse_list_item(input: &str) -> (r: (String, Node))
    requires
        spec_lps(input@, 0, 0) is Some,
    ensures
        r.1.element is Item,
        crate::node::node_plain(r.1),
        crate::grammar::el_view(r.1.element) == crate::grammar::sg_item(input@, 0).1,
        r.0@ == input@.subrange(crate::grammar::sg_item(input@, 0).0, input@.len() as int),
{
    let v = chars_of(input);
    let (cur, node) = item_at(&v, 0);
    let rest = string_range(&v, cur, v.len());
    proof {
        assert(rest@ == input@.subrange(cur as int, input@.len() as int));
    }
    (rest, node)
}

/// Parses one list from input beginning with a `*` marker line.
pub fn parse_list(input: &str) -> (r: (String, Node))
    requires
        spec_lps(input@, 0, 0) is Some,
    ensures
        (r.1.element matches El::List(items) && forall|k: int|
            0 <= k < items@.len() ==> (#[trigger] items@[k]).element is Item),
        crate::node::node_plain(r.1),
        crate::grammar::el_view(r.1.element) == crate::grammar::sg_list(input@, 0).1,
        r.0@ == input@.subrange(crate::grammar::sg_list(input@, 0).0, input@.len() as int),
{
    let v = chars_of(input);
    let (cur, node) = list_at(&v, 0);
    let rest = string_range(&v, cur, v.len());
    proof {
        assert(rest@ == input@.subrange(cur as int, input@.len() as int));
    }
    (rest, node)
}

} // verus!
