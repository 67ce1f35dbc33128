//! The message renderer: chooses the display text of an event, substitutes
//! `{key}` placeholders with rendering values, and builds the display line
//! and the per-level color of the list view.
//!
//! Selection policy: the template when it is non-empty, else the pre-rendered
//! message when it is non-empty, else the literal fallback `No message`.
//! Emptiness is judged and substitution is done on the display form of a
//! value — its surrounding quotes stripped — since stored fields keep the
//! exact textual form of the source line.

use vstd::prelude::*;
use crate::clef::{ClefEvent, ClefEventModel, Level, RenderingModel};
use crate::text::{replace_all, replace_all_bytes, unquote, unquote_bytes, push_all};

verus! {

/// The bytes of the fallback text `"No message"`.
pub open spec fn lit_no_message() -> Seq<u8> {
    seq![
        'N' as u8,
        'o' as u8,
        ' ' as u8,
        'm' as u8,
        'e' as u8,
        's' as u8,
        's' as u8,
        'a' as u8,
        'g' as u8,
        'e' as u8,
    ]
}

/// The text substitution starts from: the unquoted template when non-empty,
/// else the unquoted message when non-empty, else `"No message"`.
pub open spec fn chosen_text(e: ClefEventModel) -> Seq<u8> {
    if unquote(e.template).len() > 0 {
        unquote(e.template)
    } else if unquote(e.message).len() > 0 {
        unquote(e.message)
    } else {
        lit_no_message()
    }
}

/// A rendering key wrapped in braces: the placeholder it replaces.
pub open spec fn brace_key(k: Seq<u8>) -> Seq<u8> {
    seq!['{' as u8] + k + seq!['}' as u8]
}

/// The renderings applied to `text` in order: each replaces every occurrence
/// of its braced key with the display form of its value.
pub open spec fn apply_renderings(text: Seq<u8>, rs: Seq<RenderingModel>) -> Seq<u8>
    decreases rs.len(),
{
    if rs.len() == 0 {
        text
    } else {
        apply_renderings(replace_all(text, brace_key(rs[0].key), unquote(rs[0].value)), rs.skip(1))
    }
}

/// The rendered message of an event.
pub open spec fn spec_render_message(e: ClefEventModel) -> Seq<u8> {
    apply_renderings(chosen_text(e), e.renderings)
}

/// Renders the message of an event: the template (or, when it is empty, the
/// message, or the fallback `No message`) with every `{key}` placeholder of a
/// rendering replaced by that rendering's unquoted value, applied in source
/// order; a placeholder with no matching rendering stays verbatim.
pub fn render_message(e: &ClefEvent) -> (r: Vec<u8>)
    ensures
        r@ == spec_render_message(e@),
{
    let tq = unquote_bytes(e.template.as_slice());
    let mq = unquote_bytes(e.message.as_slice());
    let mut text: Vec<u8> = if tq.len() > 0 {
        tq
    } else if mq.len() > 0 {
        mq
    } else {
        let fallback: Vec<u8> = vec![
            'N' as u8,
            'o' as u8,
            ' ' as u8,
            'm' as u8,
            'e' as u8,
            's' as u8,
            's' as u8,
            'a' as u8,
            'g' as u8,
            'e' as u8,
        ];
        proof {
            assert(fallback@ =~= lit_no_message());
        }
        fallback
    };
    let ghost rs = e@.renderings;
    let mut i: usize = 0;
    proof {
        assert(rs.skip(0) =~= rs);
    }
    while i < e.renderings.len()
        invariant
            i <= e.renderings@.len(),
            rs == e@.renderings,
            rs.len() == e.renderings@.len(),
            apply_renderings(text@, rs.skip(i as int)) == apply_renderings(chosen_text(e@), rs),
        decreases e.renderings@.len() - i,
    {
        let mut pat: Vec<u8> = Vec::new();
        pat.push('{' as u8);
        push_all(&mut pat, e.renderings[i].key.as_slice());
        pat.push('}' as u8);
        proof {
            assert(pat@ =~= brace_key(rs[i as int].key));
            assert(rs.skip(i as int)[0] == rs[i as int]);
            assert(rs.skip(i as int).skip(1) =~= rs.skip(i + 1));
        }
        let uv = unquote_bytes(e.renderings[i].value.as_slice());
        text = replace_all_bytes(text.as_slice(), pat.as_slice(), uv.as_slice());
        i = i + 1;
    }
    proof {
        assert(rs.skip(rs.len() as int) =~= Seq::<RenderingModel>::empty());
    }
    text
}

/// An event whose template and message are both empty — and that carries no
/// renderings to substitute into the fallback — renders as `"No message"`.
pub proof fn lemma_empty_event_renders_fallback(e: ClefEventModel)
    requires
        unquote(e.template).len() == 0,
        unquote(e.message).len() == 0,
        e.renderings.len() == 0,
    ensures
        spec_render_message(e) == lit_no_message(),
{
    assert(chosen_text(e) == lit_no_message());
}

/// The uppercase display name of a level.
pub open spec fn level_name(l: Level) -> Seq<u8> {
    match l {
        Level::Verbose => seq![
            'V' as u8,
            'E' as u8,
            'R' as u8,
            'B' as u8,
            'O' as u8,
            'S' as u8,
            'E' as u8,
        ],
        Level::Debug => seq!['D' as u8, 'E' as u8, 'B' as u8, 'U' as u8, 'G' as u8],
        Level::Information => seq![
            'I' as u8,
            'N' as u8,
            'F' as u8,
            'O' as u8,
            'R' as u8,
            'M' as u8,
            'A' as u8,
            'T' as u8,
            'I' as u8,
            'O' as u8,
            'N' as u8,
        ],
        Level::Warning => seq![
            'W' as u8,
            'A' as u8,
            'R' as u8,
            'N' as u8,
            'I' as u8,
            'N' as u8,
            'G' as u8,
        ],
        Level::Error => seq!['E' as u8, 'R' as u8, 'R' as u8, 'O' as u8, 'R' as u8],
        Level::Fatal => seq!['F' as u8, 'A' as u8, 'T' as u8, 'A' as u8, 'L' as u8],
    }
}

/// The uppercase display name of a level, computed.
pub fn level_name_bytes(l: Level) -> (r: Vec<u8>)
    ensures
        r@ == level_name(l),
{
    let r: Vec<u8> = match l {
        Level::Verbose => vec![
            'V' as u8,
            'E' as u8,
            'R' as u8,
            'B' as u8,
            'O' as u8,
            'S' as u8,
            'E' as u8,
        ],
        Level::Debug => vec!['D' as u8, 'E' as u8, 'B' as u8, 'U' as u8, 'G' as u8],
        Level::Information => vec![
            'I' as u8,
            'N' as u8,
            'F' as u8,
            'O' as u8,
            'R' as u8,
            'M' as u8,
            'A' as u8,
            'T' as u8,
            'I' as u8,
            'O' as u8,
            'N' as u8,
        ],
        Level::Warning => vec![
            'W' as u8,
            'A' as u8,
            'R' as u8,
            'N' as u8,
            'I' as u8,
            'N' as u8,
            'G' as u8,
        ],
        Level::Error => vec!['E' as u8, 'R' as u8, 'R' as u8, 'O' as u8, 'R' as u8],
        Level::Fatal => vec!['F' as u8, 'A' as u8, 'T' as u8, 'A' as u8, 'L' as u8],
    };
    proof {
        assert(r@ =~= level_name(l));
    }
    r
}

/// The display line of an event: the unquoted timestamp, a colon and a
/// space, the level name in brackets, a space, and the rendered message.
pub open spec fn spec_display_line(e: ClefEventModel) -> Seq<u8> {
    unquote(e.timestamp) + seq![':' as u8, ' ' as u8, '[' as u8] + level_name(e.level) + seq![
        ']' as u8,
        ' ' as u8,
    ] + spec_render_message(e)
}

impl ClefEvent {
    /// The line shown for this event:
    /// `{timestamp}: [{LEVEL}] {rendered message}`, with the timestamp's
    /// quotes stripped.
    pub fn as_message(&self) -> (r: Vec<u8>)
        ensures
            r@ == spec_display_line(self@),
    {
        let mut out = unquote_bytes(self.timestamp.as_slice());
        out.push(':' as u8);
        out.push(' ' as u8);
        out.push('[' as u8);
        let name = level_name_bytes(self.level);
        push_all(&mut out, name.as_slice());
        out.push(']' as u8);
        out.push(' ' as u8);
        let msg = render_message(self);
        push_all(&mut out, msg.as_slice());
        proof {
            assert(out@ =~= spec_display_line(self@));
        }
        out
    }
}

/// The color of each severity level in the list view; the six-way
/// distinction is the contract, the hue is cosmetic.
#[derive(Debug, Clone, Copy, PartialEq, Eq, Structural)]
pub enum LogColor {
    White,
    Blue,
    Green,
    Yellow,
    Red,
    Magenta,
}

/// The color a level is shown in.
pub open spec fn spec_level_color(l: Level) -> LogColor {
    match l {
        Level::Verbose => LogColor::White,
        Level::Debug => LogColor::Blue,
        Level::Information => LogColor::Green,
        Level::Warning => LogColor::Yellow,
        Level::Error => LogColor::Red,
        Level::Fatal => LogColor::Magenta,
    }
}

/// Maps an event to the color its line is drawn in, one distinct color per
/// level.
pub fn map_level_to_color(event: &ClefEvent) -> (r: LogColor)
    ensures
        r == spec_level_color(event@.level),
{
    match event.level {
        Level::Verbose => LogColor::White,
        Level::Debug => LogColor::Blue,
        Level::Information => LogColor::Green,
        Level::Warning => LogColor::Yellow,
        Level::Error => LogColor::Red,
        Level::Fatal => LogColor::Magenta,
    }
}

} // verus!
