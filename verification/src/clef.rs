//! The CLEF event model: severity levels and their resolution from the raw
//! `@l` value of a record.
//!
//! A raw level is normalized (non-alphanumeric bytes dropped, rest
//! lowercased) and then matched against the six level names, or against the
//! numeric codes 1 to 6 in the same order; anything else, the empty string
//! included, resolves to `Information`, the documented default for an absent
//! level.

use vstd::prelude::*;
use crate::text::{normalize_level, normalize_level_bytes, bytes_eq};
use crate::json::{Member, members_model, spec_parse_members, parse_json_object};
use crate::AppError;

verus! {

/// The closed set of severity levels of a CLEF record.
#[derive(Debug, Clone, Copy, PartialEq, Eq, Structural)]
pub enum Level {
    Verbose,
    Debug,
    Information,
    Warning,
    Error,
    Fatal,
}

/// The bytes of `"verbose"`.
pub open spec fn lit_verbose() -> Seq<u8> {
    seq!['v' as u8, 'e' as u8, 'r' as u8, 'b' as u8, 'o' as u8, 's' as u8, 'e' as u8]
}

/// The bytes of `"debug"`.
pub open spec fn lit_debug() -> Seq<u8> {
    seq!['d' as u8, 'e' as u8, 'b' as u8, 'u' as u8, 'g' as u8]
}

/// The bytes of `"information"`.
pub open spec fn lit_information() -> Seq<u8> {
    seq![
        'i' as u8,
        'n' as u8,
        'f' as u8,
        'o' as u8,
        'r' as u8,
        'm' as u8,
        'a' as u8,
        't' as u8,
        'i' as u8,
        'o' as u8,
        'n' as u8,
    ]
}

/// The bytes of `"warning"`.
pub open spec fn lit_warning() -> Seq<u8> {
    seq!['w' as u8, 'a' as u8, 'r' as u8, 'n' as u8, 'i' as u8, 'n' as u8, 'g' as u8]
}

/// The bytes of `"error"`.
pub open spec fn lit_error() -> Seq<u8> {
    seq!['e' as u8, 'r' as u8, 'r' as u8, 'o' as u8, 'r' as u8]
}

/// The bytes of `"fatal"`.
pub open spec fn lit_fatal() -> Seq<u8> {
    seq!['f' as u8, 'a' as u8, 't' as u8, 'a' as u8, 'l' as u8]
}

/// The level a normalized raw value stands for: one of the six names, or a
/// numeric code `1` to `6` in the same order, or `Information` for anything
/// else.
pub open spec fn level_of_normal(n: Seq<u8>) -> Level {
    if n == lit_verbose() || n == seq!['1' as u8] {
        Level::Verbose
    } else if n == lit_debug() || n == seq!['2' as u8] {
        Level::Debug
    } else if n == lit_information() || n == seq!['3' as u8] {
        Level::Information
    } else if n == lit_warning() || n == seq!['4' as u8] {
        Level::Warning
    } else if n == lit_error() || n == seq!['5' as u8] {
        Level::Error
    } else if n == lit_fatal() || n == seq!['6' as u8] {
        Level::Fatal
    } else {
        Level::Information
    }
}

/// The level a raw `@l` value resolves to.
pub open spec fn spec_resolve_level(raw: Seq<u8>) -> Level {
    level_of_normal(normalize_level(raw))
}

/// Resolves a raw level string: quoting and punctuation are stripped, case is
/// ignored, and both the six names and the numeric codes `"1"` to `"6"` are
/// recognized; everything else resolves to `Information`.
pub fn resolve_level(raw: &[u8]) -> (r: Level)
    ensures
        r == spec_resolve_level(raw@),
{
    let n = normalize_level_bytes(raw);
    let lv: Vec<u8> = vec!['v' as u8, 'e' as u8, 'r' as u8, 'b' as u8, 'o' as u8, 's' as u8, 'e' as u8];
    let ld: Vec<u8> = vec!['d' as u8, 'e' as u8, 'b' as u8, 'u' as u8, 'g' as u8];
    let li: Vec<u8> = vec![
        'i' as u8,
        'n' as u8,
        'f' as u8,
        'o' as u8,
        'r' as u8,
        'm' as u8,
        'a' as u8,
        't' as u8,
        'i' as u8,
        'o' as u8,
        'n' as u8,
    ];
    let lw: Vec<u8> = vec!['w' as u8, 'a' as u8, 'r' as u8, 'n' as u8, 'i' as u8, 'n' as u8, 'g' as u8];
    let le: Vec<u8> = vec!['e' as u8, 'r' as u8, 'r' as u8, 'o' as u8, 'r' as u8];
    let lf: Vec<u8> = vec!['f' as u8, 'a' as u8, 't' as u8, 'a' as u8, 'l' as u8];
    proof {
        assert(lv@ =~= lit_verbose());
        assert(ld@ =~= lit_debug());
        assert(li@ =~= lit_information());
        assert(lw@ =~= lit_warning());
        assert(le@ =~= lit_error());
        assert(lf@ =~= lit_fatal());
    }
    if bytes_eq(n.as_slice(), lv.as_slice()) || (n.len() == 1 && n[0] == '1' as u8) {
        proof {
            if n@ != lit_verbose() {
                assert(n@ =~= seq!['1' as u8]);
            }
        }
        Level::Verbose
    } else if bytes_eq(n.as_slice(), ld.as_slice()) || (n.len() == 1 && n[0] == '2' as u8) {
        proof {
            if n@ != lit_debug() {
                assert(n@ =~= seq!['2' as u8]);
            }
        }
        Level::Debug
    } else if bytes_eq(n.as_slice(), li.as_slice()) || (n.len() == 1 && n[0] == '3' as u8) {
        proof {
            if n@ != lit_information() {
                assert(n@ =~= seq!['3' as u8]);
            }
        }
        Level::Information
    } else if bytes_eq(n.as_slice(), lw.as_slice()) || (n.len() == 1 && n[0] == '4' as u8) {
        proof {
            if n@ != lit_warning() {
                assert(n@ =~= seq!['4' as u8]);
            }
        }
        Level::Warning
    } else if bytes_eq(n.as_slice(), le.as_slice()) || (n.len() == 1 && n[0] == '5' as u8) {
        proof {
            if n@ != lit_error() {
                assert(n@ =~= seq!['5' as u8]);
            }
        }
        Level::Error
    } else if bytes_eq(n.as_slice(), lf.as_slice()) || (n.len() == 1 && n[0] == '6' as u8) {
        proof {
            if n@ != lit_fatal() {
                assert(n@ =~= seq!['6' as u8]);
            }
        }
        Level::Fatal
    } else {
        proof {
            assert(n@ != seq!['1' as u8] && n@ != seq!['2' as u8] && n@ != seq!['3' as u8] && n@
                != seq!['4' as u8] && n@ != seq!['5' as u8] && n@ != seq!['6' as u8]) by {
                if n@.len() == 1 {
                    assert(n@[0] != '1' as u8 && n@[0] != '2' as u8 && n@[0] != '3' as u8 && n@[0]
                        != '4' as u8 && n@[0] != '5' as u8 && n@[0] != '6' as u8);
                }
            }
        }
        Level::Information
    }
}

/// Any raw level whose normal form is neither one of the six level names nor
/// a numeric code `1` to `6` — the empty string included — resolves to
/// `Information`.
pub proof fn lemma_unrecognized_level_defaults(raw: Seq<u8>)
    requires
        normalize_level(raw) != lit_verbose(),
        normalize_level(raw) != lit_debug(),
        normalize_level(raw) != lit_information(),
        normalize_level(raw) != lit_warning(),
        normalize_level(raw) != lit_error(),
        normalize_level(raw) != lit_fatal(),
        forall|d: u8| '1' as u8 <= d <= '6' as u8 ==> normalize_level(raw) != seq![d],
    ensures
        spec_resolve_level(raw) == Level::Information,
{
    assert(normalize_level(raw) != seq!['1' as u8]);
    assert(normalize_level(raw) != seq!['2' as u8]);
    assert(normalize_level(raw) != seq!['3' as u8]);
    assert(normalize_level(raw) != seq!['4' as u8]);
    assert(normalize_level(raw) != seq!['5' as u8]);
    assert(normalize_level(raw) != seq!['6' as u8]);
}

/// A CLEF property outside the reserved keys: it substitutes the `{key}`
/// token in a message template with its value's textual form.
#[derive(Debug)]
pub struct Rendering {
    pub key: Vec<u8>,
    pub value: Vec<u8>,
}

/// The pair of byte strings a `Rendering` stands for.
#[verifier::ext_equal]
pub struct RenderingModel {
    pub key: Seq<u8>,
    pub value: Seq<u8>,
}

impl View for Rendering {
    type V = RenderingModel;

    open spec fn view(&self) -> RenderingModel {
        RenderingModel { key: self.key@, value: self.value@ }
    }
}

/// One parsed log record. Every textual field keeps the exact textual form
/// found in the source line — a string value keeps its surrounding quotes,
/// which the renderer strips for display — and is empty when the key is
/// absent. The record is never changed once constructed.
#[derive(Debug)]
pub struct ClefEvent {
    /// The `@t` value, the ISO-8601 timestamp, quotes and all.
    pub timestamp: Vec<u8>,
    /// The `@m` value, the pre-rendered message.
    pub message: Vec<u8>,
    /// The `@mt` value, the message template.
    pub template: Vec<u8>,
    /// The level resolved from the `@l` value; `Information` when absent.
    pub level: Level,
    /// The `@x` value, the raw exception text.
    pub exception: Vec<u8>,
    /// The `@i` value, the event identifier.
    pub event_id: Vec<u8>,
    /// Every member outside the six reserved keys, in source order.
    pub renderings: Vec<Rendering>,
}

/// What a `ClefEvent` stands for, with every byte string as a sequence.
#[verifier::ext_equal]
pub struct ClefEventModel {
    pub timestamp: Seq<u8>,
    pub message: Seq<u8>,
    pub template: Seq<u8>,
    pub level: Level,
    pub exception: Seq<u8>,
    pub event_id: Seq<u8>,
    pub renderings: Seq<RenderingModel>,
}

impl View for ClefEvent {
    type V = ClefEventModel;

    open spec fn view(&self) -> ClefEventModel {
        ClefEventModel {
            timestamp: self.timestamp@,
            message: self.message@,
            template: self.template@,
            level: self.level,
            exception: self.exception@,
            event_id: self.event_id@,
            renderings: self.renderings@.map_values(|r: Rendering| r@),
        }
    }
}

/// The bytes of the reserved key `@t`.
pub open spec fn lit_key_t() -> Seq<u8> {
    seq!['@' as u8, 't' as u8]
}

/// The bytes of the reserved key `@m`.
pub open spec fn lit_key_m() -> Seq<u8> {
    seq!['@' as u8, 'm' as u8]
}

/// The bytes of the reserved key `@mt`.
pub open spec fn lit_key_mt() -> Seq<u8> {
    seq!['@' as u8, 'm' as u8, 't' as u8]
}

/// The bytes of the reserved key `@l`.
pub open spec fn lit_key_l() -> Seq<u8> {
    seq!['@' as u8, 'l' as u8]
}

/// The bytes of the reserved key `@x`.
pub open spec fn lit_key_x() -> Seq<u8> {
    seq!['@' as u8, 'x' as u8]
}

/// The bytes of the reserved key `@i`.
pub open spec fn lit_key_i() -> Seq<u8> {
    seq!['@' as u8, 'i' as u8]
}

/// The record before any member is read: every field empty and the level at
/// its default, `Information`.
pub open spec fn empty_event() -> ClefEventModel {
    ClefEventModel {
        timestamp: Seq::empty(),
        message: Seq::empty(),
        template: Seq::empty(),
        level: Level::Information,
        exception: Seq::empty(),
        event_id: Seq::empty(),
        renderings: Seq::empty(),
    }
}

/// One member folded into the record: a reserved key sets its field (a later
/// occurrence overwrites an earlier one), any other key appends a rendering.
pub open spec fn apply_member(e: ClefEventModel, m: (Seq<u8>, Seq<u8>)) -> ClefEventModel {
    if m.0 == lit_key_t() {
        ClefEventModel { timestamp: m.1, ..e }
    } else if m.0 == lit_key_m() {
        ClefEventModel { message: m.1, ..e }
    } else if m.0 == lit_key_mt() {
        ClefEventModel { template: m.1, ..e }
    } else if m.0 == lit_key_l() {
        ClefEventModel { level: spec_resolve_level(m.1), ..e }
    } else if m.0 == lit_key_x() {
        ClefEventModel { exception: m.1, ..e }
    } else if m.0 == lit_key_i() {
        ClefEventModel { event_id: m.1, ..e }
    } else {
        ClefEventModel {
            renderings: e.renderings.push(RenderingModel { key: m.0, value: m.1 }),
            ..e
        }
    }
}

/// The record all members of an object fold into, in source order.
pub open spec fn event_of_members(ms: Seq<(Seq<u8>, Seq<u8>)>) -> ClefEventModel
    decreases ms.len(),
{
    if ms.len() == 0 {
        empty_event()
    } else {
        apply_member(event_of_members(ms.drop_last()), ms.last())
    }
}

/// The record a line stands for: `None` when the line is not a JSON object.
pub open spec fn spec_parse_event(line: Seq<u8>) -> Option<ClefEventModel> {
    match spec_parse_members(line) {
        None => None,
        Some(ms) => Some(event_of_members(ms)),
    }
}

/// Parses one line as a CLEF record: the line must be a single JSON object;
/// its reserved keys fill the record's fields, the `@l` value is resolved to
/// a level, and every other member becomes a rendering, in source order.
/// Fails with `MalformedEvent` when the line is not such an object.
pub fn parse(line: &[u8]) -> (r: Result<ClefEvent, AppError>)
    ensures
        r is Ok <==> spec_parse_event(line@) is Some,
        r matches Ok(e) ==> spec_parse_event(line@) == Some(e@),
        r matches Err(e) ==> e == AppError::MalformedEvent,
{
    let mut ms = match parse_json_object(line) {
        Err(e) => {
            return Err(e);
        },
        Ok(ms) => ms,
    };
    let ghost full = members_model(ms@);
    let kt: Vec<u8> = vec!['@' as u8, 't' as u8];
    let km: Vec<u8> = vec!['@' as u8, 'm' as u8];
    let kmt: Vec<u8> = vec!['@' as u8, 'm' as u8, 't' as u8];
    let kl: Vec<u8> = vec!['@' as u8, 'l' as u8];
    let kx: Vec<u8> = vec!['@' as u8, 'x' as u8];
    let ki: Vec<u8> = vec!['@' as u8, 'i' as u8];
    proof {
        assert(kt@ =~= lit_key_t());
        assert(km@ =~= lit_key_m());
        assert(kmt@ =~= lit_key_mt());
        assert(kl@ =~= lit_key_l());
        assert(kx@ =~= lit_key_x());
        assert(ki@ =~= lit_key_i());
    }
    let mut ev = ClefEvent {
        timestamp: Vec::new(),
        message: Vec::new(),
        template: Vec::new(),
        level: Level::Information,
        exception: Vec::new(),
        event_id: Vec::new(),
        renderings: Vec::new(),
    };
    let ghost total = full.len();
    let n0 = ms.len();
    let mut i: usize = 0;
    proof {
        assert(total == n0 as nat);
        assert(full.take(0) =~= Seq::<(Seq<u8>, Seq<u8>)>::empty());
        assert(ev@.renderings =~= Seq::<RenderingModel>::empty());
        assert(ev@ == event_of_members(full.take(0)));
        assert(members_model(ms@) =~= full.skip(0));
    }
    while ms.len() > 0
        invariant
            spec_parse_members(line@) == Some(full),
            i + ms@.len() == total,
            total == full.len(),
            total <= usize::MAX,
            members_model(ms@) == full.skip(i as int),
            ev@ == event_of_members(full.take(i as int)),
            kt@ == lit_key_t(),
            km@ == lit_key_m(),
            kmt@ == lit_key_mt(),
            kl@ == lit_key_l(),
            kx@ == lit_key_x(),
            ki@ == lit_key_i(),
        decreases ms@.len(),
    {
        let ghost oms = ms@;
        let m = ms.remove(0);
        proof {
            assert(m.model() == members_model(oms)[0]);
            assert(m.model() == full.skip(i as int)[0]);
            assert(m.model() == full[i as int]);
            assert(members_model(ms@) =~= full.skip(i + 1)) by {
                assert forall|k: int| 0 <= k < ms@.len() implies members_model(ms@)[k] == full.skip(
                    i + 1,
                )[k] by {
                    assert(members_model(ms@)[k] == ms@[k].model());
                    assert(ms@[k] == oms.remove(0)[k]);
                    assert(oms.remove(0)[k] == oms[k + 1]);
                    assert(members_model(oms)[k + 1] == oms[k + 1].model());
                    assert(members_model(oms)[k + 1] == full.skip(i as int)[k + 1]);
                    assert(full.skip(i as int)[k + 1] == full[i + 1 + k]);
                    assert(full.skip(i + 1)[k] == full[i + 1 + k]);
                }
            }
            assert(full.take(i + 1).drop_last() =~= full.take(i as int));
            assert(full.take(i + 1).last() == full[i as int]);
        }
        let ghost prev = ev@;
        proof {
            assert(lit_key_t().len() == 2 && lit_key_m().len() == 2 && lit_key_mt().len() == 3
                && lit_key_l().len() == 2 && lit_key_x().len() == 2 && lit_key_i().len() == 2);
            assert(lit_key_t()[1] == 't' as u8 && lit_key_m()[1] == 'm' as u8 && lit_key_l()[1]
                == 'l' as u8 && lit_key_x()[1] == 'x' as u8 && lit_key_i()[1] == 'i' as u8);
        }
        if bytes_eq(m.key.as_slice(), kt.as_slice()) {
            ev.timestamp = m.value;
        } else if bytes_eq(m.key.as_slice(), kmt.as_slice()) {
            ev.template = m.value;
        } else if bytes_eq(m.key.as_slice(), km.as_slice()) {
            ev.message = m.value;
        } else if bytes_eq(m.key.as_slice(), kl.as_slice()) {
            ev.level = resolve_level(m.value.as_slice());
        } else if bytes_eq(m.key.as_slice(), kx.as_slice()) {
            ev.exception = m.value;
        } else if bytes_eq(m.key.as_slice(), ki.as_slice()) {
            ev.event_id = m.value;
        } else {
            ev.renderings.push(Rendering { key: m.key, value: m.value });
            proof {
                assert(ev@.renderings =~= prev.renderings.push(
                    RenderingModel { key: full[i as int].0, value: full[i as int].1 },
                ));
            }
        }
        proof {
            assert(ev@ =~~= apply_member(prev, full[i as int]));
        }
        i = i + 1;
    }
    proof {
        assert(full.take(total as int) =~= full);
    }
    Ok(ev)
}

} // verus!


