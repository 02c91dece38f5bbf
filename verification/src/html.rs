//! The HTML serializer: an open-tag stack over an output buffer, with
//! line-oriented and inline emission primitives.

use vstd::prelude::*;

use crate::text::{solid_end, string_from};

verus! {

/// Spaces of indentation per nesting level.
pub const TABSIZE: usize = 2;

/// The buffer with trailing whitespace removed.
pub open spec fn spec_rtrim(s: Seq<char>) -> Seq<char> {
    s.subrange(0, solid_end(s, s.len() as int))
}

/// End of the buffer with trailing spaces (only) removed.
pub open spec fn space_end(s: Seq<char>, i: int) -> int
    decreases i,
{
    if i <= 0 || i > s.len() {
        0
    } else if s[i - 1] != ' ' {
        i
    } else {
        space_end(s, i - 1)
    }
}

/// Trailing spaces are dropped unless a newline would be exposed.
pub open spec fn spec_trim_spaces(s: Seq<char>) -> Seq<char> {
    let k = space_end(s, s.len() as int);
    if k > 0 && s[k - 1] == '\n' {
        s
    } else {
        s.subrange(0, k)
    }
}

/// `n` spaces.
pub open spec fn spec_spaces(n: int) -> Seq<char> {
    Seq::new(
        if n >= 0 {
            n as nat
        } else {
            0
        },
        |i: int| ' ',
    )
}

/// Integer capped at the machine word, as saturating arithmetic leaves it.
pub open spec fn spec_sat(x: int) -> int {
    if x > usize::MAX {
        usize::MAX as int
    } else {
        x
    }
}

/// One serialized attribute: ` key="value"`.
pub open spec fn spec_attr(k: Seq<char>, v: Seq<char>) -> Seq<char> {
    seq![' '] + k + seq!['=', '"'] + v + seq!['"']
}

/// All attributes of a node, serialized in order from position `i`.
pub open spec fn spec_attrs_from(attrs: Seq<(String, String)>, i: int) -> Seq<char>
    decreases attrs.len() - i,
{
    if i < 0 || i >= attrs.len() {
        Seq::empty()
    } else {
        spec_attr(attrs[i].0@, attrs[i].1@) + spec_attrs_from(attrs, i + 1)
    }
}

/// The serializer state: output buffer, open-tag stack, the most recently
/// closed tag, and an indentation offset for nested render passes.
pub struct Html {
    pub content: Vec<char>,
    pub stack: Vec<String>,
    pub just_closed: Option<String>,
    pub indent_adjust: usize,
}

impl Html {
    pub fn new() -> (h: Html)
        ensures
            h.content@.len() == 0,
            h.stack@.len() == 0,
            h.just_closed is None,
            h.indent_adjust == 0,
    {
        Html { content: Vec::new(), stack: Vec::new(), just_closed: None, indent_adjust: 0 }
    }

    /// The output as a string.
    pub fn take_string(&self) -> (r: String)
        ensures
            r@ == self.content@,
    {
        string_from(&self.content)
    }

    pub fn push(&mut self, c: char)
        ensures
            final(self).content@ == old(self).content@.push(c),
            final(self).stack == old(self).stack,
            final(self).just_closed is None,
            final(self).indent_adjust == old(self).indent_adjust,
    {
        self.content.push(c);
        self.just_closed = None;
    }

    pub fn push_str(&mut self, string: &str)
        ensures
            final(self).content@ == old(self).content@ + string@,
            final(self).stack == old(self).stack,
            final(self).just_closed is None,
            final(self).indent_adjust == old(self).indent_adjust,
            hview(*final(self)) == st_push_str(hview(*old(self)), string@),
    {
        let v = crate::text::chars_of(string);
        let mut i: usize = 0;
        while i < v.len()
            invariant
                i <= v@.len(),
                v@ == string@,
                self.content@ == old(self).content@ + v@.subrange(0, i as int),
                self.stack == old(self).stack,
                self.indent_adjust == old(self).indent_adjust,
            decreases v@.len() - i,
        {
            self.content.push(v[i]);
            proof {
                assert(self.content@ =~= old(self).content@ + v@.subrange(0, i + 1 as int));
            }
            i = i + 1;
        }
        self.just_closed = None;
        proof {
            assert(self.content@ =~= old(self).content@ + string@);
        }
    }

    fn start_tag(&mut self, tag: &str)
        ensures
            final(self).content@ == old(self).content@ + seq!['<'] + tag@,
            final(self).stack == old(self).stack,
            final(self).just_closed is None,
            final(self).indent_adjust == old(self).indent_adjust,
    {
        self.push('<');
        self.push_str(tag);
        proof {
            assert(self.content@ =~= old(self).content@ + seq!['<'] + tag@);
        }
    }

    /// Begins a tag and records it on the open-tag stack.
    pub fn start(&mut self, tag: &str)
        ensures
            final(self).content@ == old(self).content@ + seq!['<'] + tag@,
            final(self).stack@.len() == old(self).stack@.len() + 1,
            final(self).stack@.drop_last() == old(self).stack@,
            final(self).stack@.last()@ == tag@,
            final(self).just_closed is None,
            final(self).indent_adjust == old(self).indent_adjust,
            hview(*final(self)) == st_start(hview(*old(self)), tag@),
    {
        self.start_tag(tag);
        let ts = String::from_str(tag);
        proof {
            lemma_stack_views_push(self.stack@, ts);
        }
        self.stack.push(ts);
        proof {
            assert(self.stack@.drop_last() =~= old(self).stack@);
        }
    }

    /// Emits the attributes and the closing `>` of an opening tag.
    pub fn finish(&mut self, attrs: &crate::node::Attrs)
        ensures
            final(self).content@ == old(self).content@ + spec_attrs_from(attrs@, 0) + seq!['>'],
            final(self).stack == old(self).stack,
            final(self).just_closed is None,
            final(self).indent_adjust == old(self).indent_adjust,
            hview(*final(self)) == st_finish(hview(*old(self)), attrs@),
    {
        let mut i: usize = 0;
        while i < attrs.len()
            invariant
                i <= attrs@.len(),
                self.content@ + spec_attrs_from(attrs@, i as int) == old(self).content@
                    + spec_attrs_from(attrs@, 0),
                self.stack == old(self).stack,
                self.indent_adjust == old(self).indent_adjust,
            decreases attrs@.len() - i,
        {
            let ghost pre = self.content@;
            self.attr(attrs[i].0.as_str(), attrs[i].1.as_str());
            proof {
                assert(self.content@ + spec_attrs_from(attrs@, i + 1) =~= pre + spec_attrs_from(
                    attrs@,
                    i as int,
                ));
            }
            i = i + 1;
        }
        self.push('>');
        proof {
            assert(self.content@ =~= old(self).content@ + spec_attrs_from(attrs@, 0) + seq!['>']);
        }
    }

    /// Starts a tag, emits attributes, and closes the opening bracket.
    pub fn open(&mut self, tag: &str, attrs: &crate::node::Attrs)
        ensures
            final(self).content@ == old(self).content@ + seq!['<'] + tag@ + spec_attrs_from(
                attrs@,
                0,
            ) + seq!['>'],
            final(self).stack@.len() == old(self).stack@.len() + 1,
            final(self).stack@.drop_last() == old(self).stack@,
            final(self).stack@.last()@ == tag@,
            final(self).just_closed is None,
            final(self).indent_adjust == old(self).indent_adjust,
            hview(*final(self)) == st_open(hview(*old(self)), tag@, attrs@),
    {
        self.start(tag);
        self.finish(attrs);
        proof {
            assert(self.content@ =~= old(self).content@ + seq!['<'] + tag@ + spec_attrs_from(
                attrs@,
                0,
            ) + seq!['>']);
        }
    }

    /// Opens a tag on a fresh indented line.
    pub fn lopen(&mut self, tag: &str, attrs: &crate::node::Attrs)
        ensures
            final(self).stack@.len() == old(self).stack@.len() + 1,
            final(self).stack@.drop_last() == old(self).stack@,
            final(self).stack@.last()@ == tag@,
            final(self).indent_adjust == old(self).indent_adjust,
            hview(*final(self)) == st_lopen(hview(*old(self)), tag@, attrs@),
    {
        proof {
            lemma_stack_views_len(self.stack@);
        }
        let depth = self.stack.len();
        self.indent(depth);
        self.open(tag, attrs);
    }

    /// Opens a tag on a fresh line and indents the line that follows it.
    pub fn lopenl(&mut self, tag: &str, attrs: &crate::node::Attrs)
        ensures
            final(self).stack@.len() == old(self).stack@.len() + 1,
            final(self).stack@.drop_last() == old(self).stack@,
            final(self).stack@.last()@ == tag@,
            final(self).indent_adjust == old(self).indent_adjust,
            hview(*final(self)) == st_lopenl(hview(*old(self)), tag@, attrs@),
    {
        self.lopen(tag, attrs);
        proof {
            lemma_stack_views_len(self.stack@);
        }
        let depth = self.stack.len();
        self.indent(depth);
    }

    /// Emits a tag with no closing counterpart.
    pub fn singleton(&mut self, tag: &str)
        ensures
            final(self).content@ == old(self).content@ + seq!['<'] + tag@,
            final(self).stack == old(self).stack,
            final(self).just_closed is None,
            final(self).indent_adjust == old(self).indent_adjust,
            hview(*final(self)) == st_singleton(hview(*old(self)), tag@),
    {
        self.start_tag(tag);
    }

    /// Closes the innermost open tag, trimming dangling spaces first.
    pub fn close(&mut self)
        ensures
            final(self).stack@ == if old(self).stack@.len() > 0 {
                old(self).stack@.drop_last()
            } else {
                old(self).stack@
            },
            final(self).indent_adjust == old(self).indent_adjust,
            old(self).stack@.len() > 0 ==> final(self).content@ == spec_trim_spaces(
                old(self).content@,
            ) + seq!['<', '/'] + old(self).stack@.last()@ + seq!['>'],
            old(self).stack@.len() > 0 ==> (final(self).just_closed matches Some(t) && t@ == old(
                self,
            ).stack@.last()@),
            old(self).stack@.len() == 0 ==> final(self).content@ == old(self).content@
                && final(self).just_closed == old(self).just_closed,
            hview(*final(self)) == st_close(hview(*old(self))),
    {
        proof {
            lemma_stack_views_len(self.stack@);
            if self.stack@.len() > 0 {
                lemma_stack_views_drop(self.stack@);
            }
        }
        let popped = self.stack.pop();
        match popped {
            Some(tag) => {
                self.trim_spaces();
                self.push('<');
                self.push('/');
                self.push_str(tag.as_str());
                self.push('>');
                self.just_closed = Some(tag);
                proof {
                    assert(self.content@ =~= spec_trim_spaces(old(self).content@) + seq!['<', '/']
                        + old(self).stack@.last()@ + seq!['>']);
                }
            },
            None => {},
        }
    }

    /// Closes the innermost tag on a fresh line, dedented one level.
    pub fn lclose(&mut self)
        ensures
            final(self).stack@ == if old(self).stack@.len() > 0 {
                old(self).stack@.drop_last()
            } else {
                old(self).stack@
            },
            final(self).indent_adjust == old(self).indent_adjust,
            old(self).stack@.len() == 0 ==> final(self).content@ == old(self).content@
                && final(self).just_closed == old(self).just_closed,
            hview(*final(self)) == st_lclose(hview(*old(self))),
    {
        proof {
            lemma_stack_views_len(self.stack@);
        }
        if self.stack.len() != 0 {
            self.trim_end();
            let depth = self.stack.len() - 1;
            self.indent(depth);
            self.close();
        }
    }

    /// Closes on a fresh line and indents the line that follows.
    pub fn lclosel(&mut self)
        ensures
            final(self).stack@ == if old(self).stack@.len() > 0 {
                old(self).stack@.drop_last()
            } else {
                old(self).stack@
            },
            final(self).indent_adjust == old(self).indent_adjust,
            old(self).stack@.len() == 0 ==> final(self).content@ == old(self).content@
                && final(self).just_closed == old(self).just_closed,
            hview(*final(self)) == st_lclosel(hview(*old(self))),
    {
        proof {
            lemma_stack_views_len(self.stack@);
        }
        if self.stack.len() != 0 {
            self.lclose();
            proof {
                lemma_stack_views_len(self.stack@);
            }
            let depth = if self.stack.len() > 0 {
                self.stack.len() - 1
            } else {
                0
            };
            self.indent(depth);
        }
    }

    /// Closes inline and indents the line that follows.
    pub fn closel(&mut self)
        ensures
            final(self).stack@ == if old(self).stack@.len() > 0 {
                old(self).stack@.drop_last()
            } else {
                old(self).stack@
            },
            final(self).indent_adjust == old(self).indent_adjust,
            old(self).stack@.len() == 0 ==> final(self).content@ == old(self).content@
                && final(self).just_closed == old(self).just_closed,
            hview(*final(self)) == st_closel(hview(*old(self))),
    {
        proof {
            lemma_stack_views_len(self.stack@);
        }
        if self.stack.len() != 0 {
            self.close();
            proof {
                lemma_stack_views_len(self.stack@);
            }
            let depth = self.stack.len();
            self.indent(depth);
        }
    }

    /// Drops trailing spaces unless that would expose a newline.
    pub fn trim_spaces(&mut self)
        ensures
            final(self).content@ == spec_trim_spaces(old(self).content@),
            final(self).stack == old(self).stack,
            final(self).just_closed == old(self).just_closed,
            final(self).indent_adjust == old(self).indent_adjust,
    {
        let mut k: usize = self.content.len();
        while k > 0 && self.content[k - 1] == ' '
            invariant
                k <= self.content@.len(),
                *self == *old(self),
                space_end(self.content@, self.content@.len() as int) == space_end(
                    self.content@,
                    k as int,
                ),
            decreases k,
        {
            k = k - 1;
        }
        if !(k > 0 && self.content[k - 1] == '\n') {
            self.content.truncate(k);
        }
        proof {
            assert(self.content@ =~= spec_trim_spaces(old(self).content@));
        }
    }

    /// Drops all trailing whitespace.
    pub fn trim_end(&mut self)
        ensures
            final(self).content@ == spec_rtrim(old(self).content@),
            final(self).stack == old(self).stack,
            final(self).just_closed == old(self).just_closed,
            final(self).indent_adjust == old(self).indent_adjust,
            hview(*final(self)) == st_rtrim(hview(*old(self))),
    {
        let mut k: usize = self.content.len();
        while k > 0 && crate::text::is_ws(self.content[k - 1])
            invariant
                k <= self.content@.len(),
                *self == *old(self),
                solid_end(self.content@, self.content@.len() as int) == solid_end(
                    self.content@,
                    k as int,
                ),
            decreases k,
        {
            k = k - 1;
        }
        self.content.truncate(k);
        proof {
            assert(self.content@ =~= spec_rtrim(old(self).content@));
        }
    }

    /// Trims the line end and begins a new line.
    pub fn nl(&mut self)
        ensures
            final(self).content@ == spec_rtrim(old(self).content@).push('\n'),
            final(self).stack == old(self).stack,
            final(self).just_closed is None,
            final(self).indent_adjust == old(self).indent_adjust,
    {
        self.trim_end();
        self.push('\n');
    }

    /// Begins a new line indented `n` levels (plus the adjustment).
    pub fn indent(&mut self, n: usize)
        ensures
            final(self).content@ == spec_rtrim(old(self).content@).push('\n') + spec_spaces(
                spec_sat(spec_sat(n + old(self).indent_adjust) * TABSIZE as int),
            ),
            final(self).stack == old(self).stack,
            final(self).just_closed is None,
            final(self).indent_adjust == old(self).indent_adjust,
            hview(*final(self)) == st_indent(hview(*old(self)), n as int),
    {
        self.nl();
        let total = sat_levels(n, self.indent_adjust);
        let ghost pre = self.content@;
        let mut i: usize = 0;
        while i < total
            invariant
                i <= total,
                self.content@ == pre + spec_spaces(i as int),
                self.stack == old(self).stack,
                self.just_closed is None,
                self.indent_adjust == old(self).indent_adjust,
            decreases total - i,
        {
            self.content.push(' ');
            self.just_closed = None;
            proof {
                assert(self.content@ =~= pre + spec_spaces(i + 1 as int));
            }
            i = i + 1;
        }
        proof {
            assert(total as int == spec_sat(spec_sat(n + old(self).indent_adjust) * TABSIZE as int));
            assert(self.just_closed is None);
        }
    }

    /// Emits one attribute.
    pub fn attr(&mut self, key: &str, value: &str)
        ensures
            final(self).content@ == old(self).content@ + spec_attr(key@, value@),
            final(self).stack == old(self).stack,
            final(self).just_closed is None,
            final(self).indent_adjust == old(self).indent_adjust,
            hview(*final(self)) == st_attr(hview(*old(self)), key@, value@),
    {
        self.space();
        self.push_str(key);
        self.push('=');
        self.push('"');
        self.push_str(value);
        self.push('"');
        proof {
            assert(self.content@ =~= old(self).content@ + spec_attr(key@, value@));
        }
    }

    pub fn space(&mut self)
        ensures
            final(self).content@ == old(self).content@.push(' '),
            final(self).stack == old(self).stack,
            final(self).just_closed is None,
            final(self).indent_adjust == old(self).indent_adjust,
            hview(*final(self)) == st_space(hview(*old(self))),
    {
        self.push(' ');
    }

    /// Inserts a space before inline content when the buffer ends in the
    /// closing tag of an inline element, or in other non-whitespace.
    pub fn space_if_needed(&mut self)
        ensures
            final(self).stack == old(self).stack,
            final(self).indent_adjust == old(self).indent_adjust,
            final(self).content@ == spec_space_if_needed(
                old(self).content@,
                jc_view(old(self).just_closed),
            ),
            spec_needs_space(old(self).content@, jc_view(old(self).just_closed))
                ==> final(self).just_closed is None,
            !spec_needs_space(old(self).content@, jc_view(old(self).just_closed))
                ==> final(self).just_closed == old(self).just_closed,
            hview(*final(self)) == st_sin(hview(*old(self))),
    {
        let n = self.content.len();
        if n > 0 && self.content[n - 1] == '>' {
            let inline_closed = match &self.just_closed {
                Some(t) => {
                    let ts = t.as_str();
                    str_is(ts, "a") || str_is(ts, "b") || str_is(ts, "i") || str_is(ts, "s")
                        || str_is(ts, "code") || str_is(ts, "span")
                },
                None => false,
            };
            if inline_closed {
                self.space();
            }
        } else if n > 0 && !crate::text::is_ws(self.content[n - 1]) {
            self.space();
        }
        proof {
            assert(self.content@ =~= spec_space_if_needed(
                old(self).content@,
                jc_view(old(self).just_closed),
            ));
        }
    }
}

/// The serializer state, viewed mathematically: what each `Html`
/// primitive reads and writes.
pub struct SState {
    pub content: Seq<char>,
    pub stack: Seq<Seq<char>>,
    pub jc: Option<Seq<char>>,
    pub adjust: int,
}

/// The state a serializer holds.
pub open spec fn hview(h: Html) -> SState {
    SState {
        content: h.content@,
        stack: stack_views(h.stack@),
        jc: jc_view(h.just_closed),
        adjust: h.indent_adjust as int,
    }
}

pub open spec fn st_push_str(st: SState, t: Seq<char>) -> SState {
    SState { content: st.content + t, stack: st.stack, jc: None, adjust: st.adjust }
}

pub open spec fn st_space(st: SState) -> SState {
    SState { content: st.content.push(' '), stack: st.stack, jc: None, adjust: st.adjust }
}

pub open spec fn st_start(st: SState, tag: Seq<char>) -> SState {
    SState {
        content: st.content + seq!['<'] + tag,
        stack: st.stack.push(tag),
        jc: None,
        adjust: st.adjust,
    }
}

pub open spec fn st_singleton(st: SState, tag: Seq<char>) -> SState {
    SState { content: st.content + seq!['<'] + tag, stack: st.stack, jc: None, adjust: st.adjust }
}

pub open spec fn st_finish(st: SState, attrs: Seq<(String, String)>) -> SState {
    SState {
        content: st.content + spec_attrs_from(attrs, 0) + seq!['>'],
        stack: st.stack,
        jc: None,
        adjust: st.adjust,
    }
}

pub open spec fn st_attr(st: SState, k: Seq<char>, v: Seq<char>) -> SState {
    SState {
        content: st.content + spec_attr(k, v),
        stack: st.stack,
        jc: None,
        adjust: st.adjust,
    }
}

pub open spec fn st_open(st: SState, tag: Seq<char>, attrs: Seq<(String, String)>) -> SState {
    st_finish(st_start(st, tag), attrs)
}

pub open spec fn st_rtrim(st: SState) -> SState {
    SState {
        content: spec_rtrim(st.content),
        stack: st.stack,
        jc: st.jc,
        adjust: st.adjust,
    }
}

pub open spec fn st_indent(st: SState, n: int) -> SState {
    SState {
        content: spec_rtrim(st.content).push('\n') + spec_spaces(
            spec_sat(spec_sat(n + st.adjust) * TABSIZE as int),
        ),
        stack: st.stack,
        jc: None,
        adjust: st.adjust,
    }
}

pub open spec fn st_lopen(st: SState, tag: Seq<char>, attrs: Seq<(String, String)>) -> SState {
    st_open(st_indent(st, st.stack.len() as int), tag, attrs)
}

pub open spec fn st_lopenl(st: SState, tag: Seq<char>, attrs: Seq<(String, String)>) -> SState {
    let st2 = st_lopen(st, tag, attrs);
    st_indent(st2, st2.stack.len() as int)
}

pub open spec fn st_close(st: SState) -> SState {
    if st.stack.len() > 0 {
        SState {
            content: spec_trim_spaces(st.content) + seq!['<', '/'] + st.stack.last()
                + seq!['>'],
            stack: st.stack.drop_last(),
            jc: Some(st.stack.last()),
            adjust: st.adjust,
        }
    } else {
        st
    }
}

pub open spec fn st_lclose(st: SState) -> SState {
    if st.stack.len() > 0 {
        st_close(st_indent(st_rtrim(st), st.stack.len() - 1))
    } else {
        st
    }
}

pub open spec fn st_lclosel(st: SState) -> SState {
    if st.stack.len() > 0 {
        let st2 = st_lclose(st);
        st_indent(
            st2,
            if st2.stack.len() > 0 {
                st2.stack.len() - 1
            } else {
                0
            },
        )
    } else {
        st
    }
}

pub open spec fn st_closel(st: SState) -> SState {
    if st.stack.len() > 0 {
        let st2 = st_close(st);
        st_indent(st2, st2.stack.len() as int)
    } else {
        st
    }
}

pub open spec fn st_sin(st: SState) -> SState {
    SState {
        content: spec_space_if_needed(st.content, st.jc),
        stack: st.stack,
        jc: if spec_needs_space(st.content, st.jc) {
            None
        } else {
            st.jc
        },
        adjust: st.adjust,
    }
}

/// What rendering a text fragment inline appends: prose spacing first when
/// the fragment opens with a letter, a digit or a slash.
pub open spec fn st_text(st: SState, t: Seq<char>) -> SState {
    if t.len() > 0 && (crate::parse::is_alnum(t[0]) || t[0] == '/') {
        st_push_str(st_sin(st), t)
    } else {
        st_push_str(st, t)
    }
}

/// The view of the most recently closed tag.
pub open spec fn jc_view(jc: Option<String>) -> Option<Seq<char>> {
    match jc {
        Some(t) => Some(t@),
        None => None,
    }
}

/// When prose spacing inserts a space: after the closing tag of an inline
/// element, or after any other non-whitespace character.
pub open spec fn spec_needs_space(content: Seq<char>, jc: Option<Seq<char>>) -> bool {
    if content.len() > 0 && content.last() == '>' {
        jc == Some("a"@) || jc == Some("b"@) || jc == Some("i"@) || jc == Some("s"@) || jc == Some(
            "code"@,
        ) || jc == Some("span"@)
    } else {
        content.len() > 0 && !crate::text::is_ws_char(content.last())
    }
}

pub open spec fn spec_space_if_needed(content: Seq<char>, jc: Option<Seq<char>>) -> Seq<char> {
    if spec_needs_space(content, jc) {
        content.push(' ')
    } else {
        content
    }
}

/// The views of an open-tag stack.
pub open spec fn stack_views(s: Seq<String>) -> Seq<Seq<char>>
    decreases s,
{
    if s.len() == 0 {
        Seq::empty()
    } else {
        seq![s[0]@] + stack_views(s.drop_first())
    }
}

pub proof fn lemma_stack_views_push(s: Seq<String>, t: String)
    ensures
        stack_views(s.push(t)) == stack_views(s).push(t@),
    decreases s,
{
    let p = s.push(t);
    assert(stack_views(p) == seq![p[0]@] + stack_views(p.drop_first()));
    if s.len() == 0 {
        assert(p.drop_first() =~= Seq::<String>::empty());
        assert(p[0] == t);
        assert(stack_views(p) =~= stack_views(s).push(t@));
    } else {
        assert(p.drop_first() =~= s.drop_first().push(t));
        assert(p[0] == s[0]);
        lemma_stack_views_push(s.drop_first(), t);
        assert(stack_views(s) == seq![s[0]@] + stack_views(s.drop_first()));
        assert(stack_views(p) =~= stack_views(s).push(t@));
    }
}

pub proof fn lemma_stack_views_len(s: Seq<String>)
    ensures
        stack_views(s).len() == s.len(),
    decreases s,
{
    if s.len() > 0 {
        lemma_stack_views_len(s.drop_first());
    }
}

pub proof fn lemma_stack_views_drop(s: Seq<String>)
    requires
        s.len() > 0,
    ensures
        stack_views(s.drop_last()) == stack_views(s).drop_last(),
        stack_views(s).len() == s.len(),
        stack_views(s).last() == s.last()@,
    decreases s,
{
    lemma_stack_views_len(s);
    lemma_stack_views_len(s.drop_last());
    if s.len() == 1 {
        assert(s.drop_last() =~= Seq::<String>::empty());
        assert(stack_views(s.drop_last()) =~= stack_views(s).drop_last());
    } else {
        assert(s.drop_last().drop_first() =~= s.drop_first().drop_last());
        assert(s.drop_last()[0] == s[0]);
        lemma_stack_views_drop(s.drop_first());
        assert(stack_views(s.drop_last()) == seq![s[0]@] + stack_views(
            s.drop_last().drop_first(),
        ));
        assert(stack_views(s) == seq![s[0]@] + stack_views(s.drop_first()));
        assert(s.drop_first().len() > 0);
        assert(stack_views(s.drop_last()) =~= stack_views(s).drop_last());
        assert(stack_views(s).last() == stack_views(s.drop_first()).last());
        assert(s.last() == s.drop_first().last());
    }
}

/// `(n + adjust) * TABSIZE`, saturating at the machine word.
fn sat_levels(n: usize, adjust: usize) -> (r: usize)
    ensures
        r as int == spec_sat(spec_sat(n + adjust) * TABSIZE as int),
{
    let s: usize = if n <= usize::MAX - adjust {
        n + adjust
    } else {
        usize::MAX
    };
    if s <= usize::MAX / 2 {
        s * 2
    } else {
        usize::MAX
    }
}

/// `by * TABSIZE`, saturating at the machine word.
fn sat_tab(by: usize) -> (r: usize)
    ensures
        r as int == spec_sat(by * TABSIZE as int),
{
    if by <= usize::MAX / 2 {
        by * 2
    } else {
        usize::MAX
    }
}

fn str_is(a: &str, b: &str) -> (r: bool)
    ensures
        r == (a@ == b@),
{
    let sa = String::from_str(a);
    let sb = String::from_str(b);
    sa == sb
}

/// `"` escaped as `&quot;`, from position `i` on.
pub open spec fn spec_escape_from(s: Seq<char>, i: int) -> Seq<char>
    decreases s.len() - i,
{
    if i < 0 || i >= s.len() {
        Seq::empty()
    } else if s[i] == '"' {
        seq!['&', 'q', 'u', 'o', 't', ';'] + spec_escape_from(s, i + 1)
    } else {
        seq![s[i]] + spec_escape_from(s, i + 1)
    }
}

/// Escapes double quotes for embedding in attribute values.
pub fn escape(string: &str) -> (r: String)
    ensures
        r@ == spec_escape_from(string@, 0),
{
    let v = crate::text::chars_of(string);
    let mut out: Vec<char> = Vec::new();
    let mut i: usize = 0;
    while i < v.len()
        invariant
            i <= v@.len(),
            v@ == string@,
            spec_escape_from(v@, 0) == out@ + spec_escape_from(v@, i as int),
        decreases v@.len() - i,
    {
        let ghost pre = out@;
        if v[i] == '"' {
            out.push('&');
            out.push('q');
            out.push('u');
            out.push('o');
            out.push('t');
            out.push(';');
            proof {
                assert(out@ =~= pre + seq!['&', 'q', 'u', 'o', 't', ';']);
                assert(pre + (seq!['&', 'q', 'u', 'o', 't', ';'] + spec_escape_from(
                    v@,
                    i + 1,
                )) =~= out@ + spec_escape_from(v@, i + 1));
            }
        } else {
            out.push(v[i]);
            proof {
                assert(pre + (seq![v@[i as int]] + spec_escape_from(v@, i + 1)) =~= out@
                    + spec_escape_from(v@, i + 1));
            }
        }
        i = i + 1;
    }
    proof {
        assert(spec_escape_from(string@, 0) =~= out@);
    }
    string_from(&out)
}

/// Newlines replaced by a newline plus `by` levels of indentation, from
/// position `i` on.
pub open spec fn spec_reindent_from(s: Seq<char>, by: int, i: int) -> Seq<char>
    decreases s.len() - i,
{
    if i < 0 || i >= s.len() {
        Seq::empty()
    } else if s[i] == '\n' {
        (seq!['\n'] + spec_spaces(spec_sat(by * TABSIZE as int))) + spec_reindent_from(s, by, i + 1)
    } else {
        seq![s[i]] + spec_reindent_from(s, by, i + 1)
    }
}

/// The body of a code block re-indented to the current depth: every
/// newline gains the given indentation, and the whole is trimmed.
pub open spec fn spec_indent(s: Seq<char>, by: int) -> Seq<char> {
    crate::text::trim_spec(spec_reindent_from(s, by, 0))
}

/// Re-indents embedded text to `by` levels.
pub fn indent(string: &str, by: usize) -> (r: String)
    ensures
        r@ == spec_indent(string@, by as int),
{
    let v = crate::text::chars_of(string);
    let pad = sat_tab(by);
    let mut out: Vec<char> = Vec::new();
    let mut i: usize = 0;
    while i < v.len()
        invariant
            i <= v@.len(),
            v@ == string@,
            spec_reindent_from(v@, by as int, 0) == out@ + spec_reindent_from(
                v@,
                by as int,
                i as int,
            ),
            pad as int == spec_sat(by * TABSIZE as int),
        decreases v@.len() - i,
    {
        let ghost pre = out@;
        if v[i] == '\n' {
            out.push('\n');
            let ghost mid = out@;
            let mut k: usize = 0;
            while k < pad
                invariant
                    k <= pad,
                    out@ == mid + spec_spaces(k as int),
                decreases pad - k,
            {
                out.push(' ');
                proof {
                    assert(out@ =~= mid + spec_spaces(k + 1 as int));
                }
                k = k + 1;
            }
            proof {
                assert(out@ =~= pre + (seq!['\n'] + spec_spaces(spec_sat(
                    by * TABSIZE as int,
                ))));
                assert(pre + ((seq!['\n'] + spec_spaces(spec_sat(by * TABSIZE as int)))
                    + spec_reindent_from(v@, by as int, i + 1)) =~= out@ + spec_reindent_from(
                    v@,
                    by as int,
                    i + 1,
                ));
            }
        } else {
            out.push(v[i]);
            proof {
                assert(pre + (seq![v@[i as int]] + spec_reindent_from(v@, by as int, i + 1)) =~= out@
                    + spec_reindent_from(v@, by as int, i + 1));
            }
        }
        i = i + 1;
    }
    proof {
        assert(spec_reindent_from(v@, by as int, v@.len() as int) =~= Seq::<char>::empty());
        assert(out@ =~= spec_reindent_from(string@, by as int, 0));
    }
    let t = crate::text::trim_chars(&out);
    string_from(&t)
}

} // verus!
