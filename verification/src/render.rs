//! The renderer: recursive, read-only production of the indented text
//! tree, with per-child markers and color-coded relative dates. The
//! escape sequences come from the `ansi_term` crate through trusted
//! wrappers with exact contracts.

use vstd::prelude::*;
use vstd::string::StrSliceExecFns;
use vstd::string::StringExecFns;
use crate::date::{DateMaybeTime, Moment, Urgency, spec_urgency, spec_describe, now_moment};
use crate::fmt::spec_dec;
use crate::tree::{ItemV, EntryV, ListV, ListItem, TodoEntry, TodoList};
use crate::tree::{lemma_item_view, lemma_list_view};

verus! {

/// A terminal foreground color the renderer uses.
#[derive(Clone, Copy, PartialEq, Eq, Structural, Debug)]
pub enum PaintColor {
    Red,
    Yellow,
    Green,
    Cyan,
    Blue,
}

/// The second digit of the ANSI foreground code of a color.
pub open spec fn spec_color_digit(c: PaintColor) -> char {
    match c {
        PaintColor::Red => '1',
        PaintColor::Yellow => '3',
        PaintColor::Green => '2',
        PaintColor::Cyan => '6',
        PaintColor::Blue => '4',
    }
}

/// Text wrapped in the ANSI foreground sequence of a color and the
/// reset sequence.
pub open spec fn spec_painted(c: PaintColor, s: Seq<char>) -> Seq<char> {
    seq!['\u{1b}', '[', '3', spec_color_digit(c), 'm'] + s + seq!['\u{1b}', '[', '0', 'm']
}

/// Text wrapped in the ANSI underline sequence and the reset sequence.
pub open spec fn spec_underlined(s: Seq<char>) -> Seq<char> {
    seq!['\u{1b}', '[', '4', 'm'] + s + seq!['\u{1b}', '[', '0', 'm']
}

/// Relies on ansi_term's `Colour::paint` and the `Display` of the
/// painted string: the foreground escape code of the colour, the text,
/// then the reset sequence.
#[verifier::external_body]
fn paint(c: PaintColor, s: &str) -> (r: String)
    ensures
        r@ == spec_painted(c, s@),
{
    let colour = match c {
        PaintColor::Red => ansi_term::Colour::Red,
        PaintColor::Yellow => ansi_term::Colour::Yellow,
        PaintColor::Green => ansi_term::Colour::Green,
        PaintColor::Cyan => ansi_term::Colour::Cyan,
        PaintColor::Blue => ansi_term::Colour::Blue,
    };
    colour.paint(s).to_string()
}

/// Relies on ansi_term's `Style::underline` and `Style::paint`: the
/// underline escape sequence, the text, then the reset sequence.
#[verifier::external_body]
fn underline(s: &str) -> (r: String)
    ensures
        r@ == spec_underlined(s@),
{
    ansi_term::Style::new().underline().paint(s).to_string()
}

/// The color an urgency is shown with: red when overdue, yellow when
/// due within a day, green otherwise.
pub open spec fn spec_urgency_color(u: Urgency) -> PaintColor {
    match u {
        Urgency::Overdue => PaintColor::Red,
        Urgency::DueSoon => PaintColor::Yellow,
        Urgency::Upcoming => PaintColor::Green,
    }
}

/// The colored `(relative date)` tag of a dated node at instant `now`.
pub open spec fn spec_date_tag(d: DateMaybeTime, now: Moment) -> Seq<char> {
    spec_painted(
        spec_urgency_color(spec_urgency(d, now)),
        seq!['('] + spec_describe(d, now.date) + seq![')'],
    )
}

/// An entry as rendered: its title, and for a dated entry a space and
/// the colored date tag.
pub open spec fn spec_render_entry(e: EntryV, now: Moment) -> Seq<char> {
    match e.date {
        None => e.title,
        Some(d) => e.title + seq![' '] + spec_date_tag(d, now),
    }
}

/// Three spaces per indentation step.
pub open spec fn spec_indent(n: int) -> Seq<char>
    decreases n,
{
    if n <= 0 {
        Seq::<char>::empty()
    } else {
        seq![' ', ' ', ' '] + spec_indent(n - 1)
    }
}

/// The marker before child `i`: its index, cyan with `)` for an entry,
/// blue with `--->` for a sublist.
pub open spec fn spec_marker(i: int, x: ItemV) -> Seq<char> {
    match x {
        ItemV::Entry(_) => spec_painted(PaintColor::Cyan, spec_dec(i) + seq![')']),
        ItemV::List(_) => spec_painted(PaintColor::Blue, spec_dec(i) + seq!['-', '-', '-', '>']),
    }
}

/// A node as rendered at a depth: an entry inline, a sublist by its
/// own recursive rendering.
pub open spec fn spec_render_item(x: ItemV, indent: int, now: Moment) -> Seq<char>
    decreases x, 0int, 0int,
{
    match x {
        ItemV::Entry(e) => spec_render_entry(e, now),
        ItemV::List(l) => spec_render_list(l, indent, now),
    }
}

/// A sublist as rendered: its header line (three leading spaces at the
/// top level, underlined title, optional date tag), then its children.
pub open spec fn spec_render_list(l: ListV, indent: int, now: Moment) -> Seq<char>
    decreases l, 0int, 0int,
{
    let lead: Seq<char> = if indent == 0 {
        seq![' ', ' ', ' ']
    } else {
        Seq::<char>::empty()
    };
    let tag: Seq<char> = match l.date {
        None => Seq::<char>::empty(),
        Some(d) => spec_date_tag(d, now),
    };
    lead + spec_underlined(l.title) + seq![' '] + tag + seq!['\n'] + spec_render_children(
        l.items,
        0,
        indent,
        now,
    )
}

/// The children of a sublist from index `i` on: each line is the
/// indentation, the marker, a space, the child's rendering, and a
/// newline for every child but the last one of a nested level (the
/// top level ends each child line, the last included).
pub open spec fn spec_render_children(items: Seq<ItemV>, i: int, indent: int, now: Moment) -> Seq<
    char,
>
    decreases items, 1int, items.len() - i,
{
    if i < 0 || i >= items.len() {
        Seq::<char>::empty()
    } else {
        let line_end: Seq<char> = if i != items.len() - 1 || indent == 0 {
            seq!['\n']
        } else {
            Seq::<char>::empty()
        };
        spec_indent(indent) + spec_marker(i, items[i]) + seq![' '] + spec_render_item(
            items[i],
            indent + 1,
            now,
        ) + line_end + spec_render_children(items, i + 1, indent, now)
    }
}

/// Append `n` levels of three-space indentation.
fn push_indent(out: &mut String, n: usize)
    ensures
        final(out)@ == old(out)@ + spec_indent(n as int),
    decreases n,
{
    if n > 0 {
        out.append("   ");
        push_indent(out, n - 1);
        proof {
            reveal_strlit("   ");
            assert(final(out)@ =~= old(out)@ + spec_indent(n as int));
        }
    } else {
        proof {
            assert(final(out)@ =~= old(out)@ + spec_indent(n as int));
        }
    }
}

/// Append the colored date tag of `d` at instant `now`.
fn push_date_tag(out: &mut String, d: &DateMaybeTime, now: &Moment)
    requires
        d.wf(),
        now.wf(),
    ensures
        final(out)@ == old(out)@ + spec_date_tag(*d, *now),
{
    let mut tag = String::new();
    proof {
        reveal_strlit("(");
        reveal_strlit(")");
    }
    tag.append("(");
    let desc = d.describe(&now.date);
    tag.append(desc.as_str());
    tag.append(")");
    let color = match d.urgency_at(now) {
        Urgency::Overdue => PaintColor::Red,
        Urgency::DueSoon => PaintColor::Yellow,
        Urgency::Upcoming => PaintColor::Green,
    };
    let painted = paint(color, tag.as_str());
    out.append(painted.as_str());
    proof {
        assert(tag@ =~= seq!['('] + spec_describe(*d, now.date) + seq![')']);
        assert(final(out)@ =~= old(out)@ + spec_date_tag(*d, *now));
    }
}

impl TodoEntry {
    /// Every date this entry carries is well-formed.
    pub open spec fn wf(self) -> bool {
        match self.date {
            None => true,
            Some(d) => d.wf(),
        }
    }

    /// Append this entry's rendering at instant `now`.
    pub fn render_at(&self, out: &mut String, now: &Moment)
        requires
            self.wf(),
            now.wf(),
        ensures
            final(out)@ == old(out)@ + spec_render_entry(self@, *now),
    {
        out.append(self.title.as_str());
        if let Some(d) = &self.date {
            proof {
                reveal_strlit(" ");
            }
            out.append(" ");
            push_date_tag(out, d, now);
            proof {
                assert(final(out)@ =~= old(out)@ + spec_render_entry(self@, *now));
            }
        }
    }

    /// Append this entry's rendering against the current instant; the
    /// clock picks it, so the result is the rendering at some
    /// well-formed instant.
    pub fn write_to(&self, out: &mut String)
        requires
            self.wf(),
        ensures
            exists|now: Moment| now.wf() && final(out)@ == old(out)@ + spec_render_entry(
                self@,
                now,
            ),
    {
        let now = now_moment();
        self.render_at(out, &now);
    }
}

/// A well-formed optional date.
pub open spec fn spec_opt_date_wf(d: Option<DateMaybeTime>) -> bool {
    match d {
        None => true,
        Some(d) => d.wf(),
    }
}

/// Every date in the tree below `x` is well-formed.
pub open spec fn spec_item_wf(x: ItemV) -> bool
    decreases x, 0int, 0int,
{
    match x {
        ItemV::Entry(e) => spec_opt_date_wf(e.date),
        ItemV::List(l) => spec_opt_date_wf(l.date) && spec_items_wf(l.items, 0),
    }
}

/// Every date in the trees below `items[i..]` is well-formed.
pub open spec fn spec_items_wf(items: Seq<ItemV>, i: int) -> bool
    decreases items, 1int, items.len() - i,
{
    if i < 0 || i >= items.len() {
        true
    } else {
        spec_item_wf(items[i]) && spec_items_wf(items, i + 1)
    }
}

/// The height of the tree below `x`: 1 for an entry.
pub open spec fn spec_item_height(x: ItemV) -> int
    decreases x, 0int, 0int,
{
    match x {
        ItemV::Entry(_) => 1,
        ItemV::List(l) => 1 + spec_items_height(l.items, 0),
    }
}

/// The greatest height among the trees below `items[i..]`.
pub open spec fn spec_items_height(items: Seq<ItemV>, i: int) -> int
    decreases items, 1int, items.len() - i,
{
    if i < 0 || i >= items.len() {
        0
    } else {
        let h = spec_item_height(items[i]);
        let rest = spec_items_height(items, i + 1);
        if h > rest {
            h
        } else {
            rest
        }
    }
}

/// A member's well-formedness and height follow from its level's.
proof fn lemma_items_at(items: Seq<ItemV>, i: int, j: int)
    requires
        0 <= i <= j < items.len(),
    ensures
        spec_items_wf(items, i) ==> spec_item_wf(items[j]),
        spec_items_height(items, i) >= spec_item_height(items[j]),
        spec_items_height(items, i) >= 0,
    decreases j - i,
{
    if i < j {
        lemma_items_at(items, i + 1, j);
    } else {
        lemma_items_height_nonneg(items, i + 1);
    }
}

/// Heights are never negative.
proof fn lemma_items_height_nonneg(items: Seq<ItemV>, i: int)
    ensures
        spec_items_height(items, i) >= 0,
    decreases items.len() - i,
{
    if 0 <= i < items.len() {
        lemma_items_height_nonneg(items, i + 1);
    }
}

impl TodoList {
    /// Every date in this list's tree is well-formed.
    pub open spec fn wf(self) -> bool {
        spec_opt_date_wf(self@.date) && spec_items_wf(self@.items, 0)
    }

    /// Append this list's header line as the list-of-lists overview
    /// shows it: a blue arrow, the title, and the date tag when there
    /// is one.
    pub fn write_header_at(&self, out: &mut String, now: &Moment)
        requires
            self.wf(),
            now.wf(),
        ensures
            final(out)@ == old(out)@ + spec_render_header(self@, *now),
    {
        broadcast use lemma_list_view;

        proof {
            reveal_strlit("->");
            reveal_strlit(" ");
            reveal_strlit("\n");
        }
        let arrow = paint(PaintColor::Blue, "->");
        out.append(arrow.as_str());
        out.append(" ");
        out.append(self.title.as_str());
        out.append(" ");
        if let Some(d) = &self.date {
            push_date_tag(out, d, now);
        }
        out.append("\n");
        proof {
            assert(final(out)@ =~= old(out)@ + spec_render_header(self@, *now));
        }
    }

    /// The header against the current instant, which the clock picks.
    pub fn write_header(&self, out: &mut String)
        requires
            self.wf(),
        ensures
            exists|now: Moment| now.wf() && final(out)@ == old(out)@ + spec_render_header(
                self@,
                now,
            ),
    {
        let now = now_moment();
        self.write_header_at(out, &now);
    }

    /// Append this list's full indented rendering at instant `now`.
    #[verifier::rlimit(100)]
    pub fn render_at(&self, out: &mut String, indent: usize, now: &Moment)
        requires
            self.wf(),
            now.wf(),
            indent + 1 + spec_items_height(self@.items, 0) <= usize::MAX,
        ensures
            final(out)@ == old(out)@ + spec_render_list(self@, indent as int, *now),
        decreases *self, 0int, 0int,
    {
        broadcast use lemma_item_view, lemma_list_view;

        proof {
            reveal_strlit(" ");
            reveal_strlit("   ");
            reveal_strlit("\n");
        }
        if indent == 0 {
            out.append("   ");
        }
        let title = underline(self.title.as_str());
        out.append(title.as_str());
        out.append(" ");
        if let Some(d) = &self.date {
            push_date_tag(out, d, now);
        }
        out.append("\n");
        proof {
            assert(out@ + spec_render_children(self@.items, 0, indent as int, *now)
                =~= old(out)@ + spec_render_list(self@, indent as int, *now));
        }
        let n = self.list.len();
        let mut j: usize = 0;
        while j < n
            invariant
                self.wf(),
                now.wf(),
                indent + 1 + spec_items_height(self@.items, 0) <= usize::MAX,
                n == self.list@.len(),
                j <= n,
                out@ + spec_render_children(self@.items, j as int, indent as int, *now)
                    == old(out)@ + spec_render_list(self@, indent as int, *now),
            decreases n - j,
        {
            let ghost at_start = out@;
            proof {
                reveal_strlit(" ");
                reveal_strlit("\n");
            }
            push_indent(out, indent);
            let item = &self.list[j];
            proof {
                lemma_list_view(*self);
                assert(self@.items.len() == n);
                assert(self@.items[j as int] == self.list@[j as int]@);
                lemma_item_view(self.list@[j as int]);
                lemma_items_at(self@.items, 0, j as int);
                vstd::std_specs::vec::axiom_vec_index_decreases::<ListItem>(
                    self.list,
                    j as int,
                );
            }
            let mut mk = String::new();
            crate::fmt::push_dec(&mut mk, j as u64);
            let marker = match item {
                ListItem::Entry(_) => {
                    proof {
                        reveal_strlit(")");
                    }
                    mk.append(")");
                    paint(PaintColor::Cyan, mk.as_str())
                }
                ListItem::List(_) => {
                    proof {
                        reveal_strlit("--->");
                    }
                    mk.append("--->");
                    paint(PaintColor::Blue, mk.as_str())
                }
            };
            proof {
                assert(marker@ =~= spec_marker(j as int, self@.items[j as int]));
            }
            let ghost s_ind = out@;
            out.append(marker.as_str());
            out.append(" ");
            let ghost s_mk = out@;
            proof {
                assert(s_ind =~= at_start + spec_indent(indent as int));
                assert(s_mk =~= s_ind + spec_marker(j as int, self@.items[j as int])
                    + seq![' ']);
            }
            match item {
                ListItem::Entry(e) => {
                    e.render_at(out, now);
                    proof {
                        assert(spec_render_item(self@.items[j as int], indent as int + 1, *now)
                            == spec_render_entry(e@, *now));
                    }
                }
                ListItem::List(l) => {
                    l.render_at(out, indent + 1, now);
                    proof {
                        assert(spec_render_item(self@.items[j as int], indent as int + 1, *now)
                            == spec_render_list(l@, indent as int + 1, *now));
                    }
                }
            }
            let ghost s_item = out@;
            proof {
                assert(s_item =~= s_mk + spec_render_item(
                    self@.items[j as int],
                    indent as int + 1,
                    *now,
                ));
            }
            if j != n - 1 || indent == 0 {
                out.append("\n");
            }
            proof {
                assert(out@ =~= s_item + (if j as int != n - 1 || indent == 0 {
                    seq!['\n']
                } else {
                    Seq::<char>::empty()
                }));
                assert(out@ =~= at_start + (spec_indent(indent as int) + spec_marker(
                    j as int,
                    self@.items[j as int],
                ) + seq![' '] + spec_render_item(self@.items[j as int], indent as int + 1, *now)
                    + (if j as int != n - 1 || indent == 0 {
                    seq!['\n']
                } else {
                    Seq::<char>::empty()
                })));
                assert(out@ + spec_render_children(self@.items, j as int + 1, indent as int, *now)
                    =~= old(out)@ + spec_render_list(self@, indent as int, *now));
            }
            j += 1;
        }
        proof {
            assert(spec_render_children(self@.items, n as int, indent as int, *now)
                =~= Seq::<char>::empty());
            assert(final(out)@ =~= old(out)@ + spec_render_list(self@, indent as int, *now));
        }
    }

    /// Append this list's rendering against the current instant, which
    /// the clock picks.
    pub fn write_to(&self, out: &mut String, indent: usize)
        requires
            self.wf(),
            indent + 1 + spec_items_height(self@.items, 0) <= usize::MAX,
        ensures
            exists|now: Moment| now.wf() && final(out)@ == old(out)@ + spec_render_list(
                self@,
                indent as int,
                now,
            ),
    {
        let now = now_moment();
        self.render_at(out, indent, &now);
    }
}

/// The overview header of a list: a blue arrow, the title, the date
/// tag when there is one, a newline.
pub open spec fn spec_render_header(l: ListV, now: Moment) -> Seq<char> {
    let tag: Seq<char> = match l.date {
        None => Seq::<char>::empty(),
        Some(d) => spec_date_tag(d, now),
    };
    spec_painted(PaintColor::Blue, seq!['-', '>']) + seq![' '] + l.title + seq![' '] + tag
        + seq!['\n']
}

impl ListItem {
    /// Every date in the tree below this node is well-formed.
    pub open spec fn wf(self) -> bool {
        spec_item_wf(self@)
    }

    /// Append this node's rendering at instant `now` and depth
    /// `indent`.
    pub fn render_at(&self, out: &mut String, indent: usize, now: &Moment)
        requires
            self.wf(),
            now.wf(),
            indent + spec_item_height(self@) <= usize::MAX,
        ensures
            final(out)@ == old(out)@ + spec_render_item(self@, indent as int, *now),
        decreases *self, 1int, 0int,
    {
        broadcast use lemma_item_view, lemma_list_view;

        match self {
            ListItem::Entry(e) => {
                e.render_at(out, now);
            }
            ListItem::List(l) => {
                l.render_at(out, indent, now);
            }
        }
    }

    /// The rendering against the current instant, which the clock
    /// picks.
    pub fn write_to(&self, out: &mut String, indent: usize)
        requires
            self.wf(),
            indent + spec_item_height(self@) <= usize::MAX,
        ensures
            exists|now: Moment| now.wf() && final(out)@ == old(out)@ + spec_render_item(
                self@,
                indent as int,
                now,
            ),
    {
        let now = now_moment();
        self.render_at(out, indent, &now);
    }
}

} // verus!
