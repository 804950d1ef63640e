//! The effect model: one `Eff` layer with its animations, sync timestamps
//! and lyric lines, and the grammar of one animation row. A row reads
//! `time|entry,entry,...|entry,...`: the first star segment is the
//! centisecond timestamp, and every further `|` segment is one animation
//! entry, a comma list whose first token names the action and whose later
//! `key=value` tokens set the optional effect and transition.

use vstd::prelude::*;

use crate::decimal::{dec_of, Decimal};
use crate::kfn_ini::trajectory::{spec_trajectory, Trajectory};
use crate::strutil::{
    dec_val, is_dec_digits, lemma_set_of_one, spec_split, split_on, str_eq, str_to_string,
};

verus! {

/// Representation of an animation action. Unrecognized action names decode
/// to the no-op action rather than an error.
#[derive(Debug, Clone, PartialEq)]
pub enum Action {
    NoAction,
    ChgBgImg(String),
    ChgColColor(String),
    ChgColImageColor(String),
    ChgAlphaBlending(String),
    ChgFloatOffsetX(Decimal),
    ChgFloatOffsetY(Decimal),
    ChgFloatDepth(Decimal),
    ChgTrajectory(Trajectory),
}

/// Representation of the available visual effects.
#[derive(Debug, Clone, Copy, PartialEq, Eq, Structural)]
pub enum Effect {
    NoEffect,
    AlphaBlending,
    MoveRight,
    MoveLeft,
    MoveTop,
    MoveBottom,
}

/// Representation of the various transition types.
#[derive(Debug, Clone, Copy, PartialEq, Eq, Structural)]
pub enum TransType {
    NoTrans,
    Linear,
    Smooth,
    Falling,
    FallingBouncing,
    Bend1,
    Bend3,
    Bend5,
    Bounce1,
    Bounce3,
    Bounce5,
}

/// One action with its optional visual effect and transition.
#[derive(Debug, Clone, PartialEq)]
pub struct AnimEntry {
    pub action: Action,
    pub effect: Option<Effect>,
    pub trans_time: Decimal,
    pub trans_type: TransType,
}

/// Representation of a collection of animations executed at the same time.
#[derive(Debug, Clone, PartialEq)]
pub struct Anim {
    pub time: usize,
    pub anim_entries: Vec<AnimEntry>,
}

/// One lyric line: the display text with the fragment separators stripped,
/// and the ordered (sync timestamp, fragment) pairs.
#[derive(Debug, Clone, PartialEq)]
pub struct TextEntry {
    pub display: String,
    pub fragments: Vec<(usize, String)>,
}

/// Representation of an Eff# headed section, which contains animations,
/// texts, and sync data.
#[derive(Debug, Clone, PartialEq)]
pub struct Eff {
    /// The ID of the Eff# layer. The background layer's ID is always 51.
    pub id: usize,
    /// Collection of the animations.
    pub anims: Vec<Anim>,
    /// Collection of the sync timestamps in centiseconds.
    pub syncs: Vec<usize>,
    /// Collection of the songtext lines.
    pub texts: Vec<TextEntry>,
    /// Initial trajectory of the layer.
    pub initial_trajectory: Trajectory,
    /// Initial library image, when one is named.
    pub initial_lib_image: Option<String>,
    /// Initial video file, when one is named.
    pub initial_video_file: Option<String>,
    /// Initial font file and point size, when an accepted font is named.
    pub initial_font: Option<(String, u32)>,
    /// Initial color of inactive text, as the raw hex string.
    pub initial_inactive_color: Option<String>,
    /// Initial color of active text, as the raw hex string.
    pub initial_active_color: Option<String>,
}

/// The effect a name selects; unrecognized names select no effect.
pub open spec fn spec_effect(s: Seq<char>) -> Effect {
    if s == "AlphaBlending"@ {
        Effect::AlphaBlending
    } else if s == "MoveRight"@ {
        Effect::MoveRight
    } else if s == "MoveLeft"@ {
        Effect::MoveLeft
    } else if s == "MoveTop"@ {
        Effect::MoveTop
    } else if s == "MoveBottom"@ {
        Effect::MoveBottom
    } else {
        Effect::NoEffect
    }
}

impl Effect {
    /// Decodes an effect name; unrecognized names give no effect.
    pub fn from(s: &str) -> (r: Effect)
        ensures
            r == spec_effect(s@),
    {
        if str_eq(s, "AlphaBlending") {
            Effect::AlphaBlending
        } else if str_eq(s, "MoveRight") {
            Effect::MoveRight
        } else if str_eq(s, "MoveLeft") {
            Effect::MoveLeft
        } else if str_eq(s, "MoveTop") {
            Effect::MoveTop
        } else if str_eq(s, "MoveBottom") {
            Effect::MoveBottom
        } else {
            Effect::NoEffect
        }
    }
}

/// The transition type a name selects; unrecognized names select none.
pub open spec fn spec_transtype(s: Seq<char>) -> TransType {
    if s == "Linear"@ {
        TransType::Linear
    } else if s == "Smooth"@ {
        TransType::Smooth
    } else if s == "Falling"@ {
        TransType::Falling
    } else if s == "FallingBouncing"@ {
        TransType::FallingBouncing
    } else if s == "Bend1"@ {
        TransType::Bend1
    } else if s == "Bend3"@ {
        TransType::Bend3
    } else if s == "Bend5"@ {
        TransType::Bend5
    } else if s == "Bounce1"@ {
        TransType::Bounce1
    } else if s == "Bounce3"@ {
        TransType::Bounce3
    } else if s == "Bounce5"@ {
        TransType::Bounce5
    } else {
        TransType::NoTrans
    }
}

impl TransType {
    /// Decodes a transition-type name; unrecognized names give none.
    pub fn from(s: &str) -> (r: TransType)
        ensures
            r == spec_transtype(s@),
    {
        if str_eq(s, "Linear") {
            TransType::Linear
        } else if str_eq(s, "Smooth") {
            TransType::Smooth
        } else if str_eq(s, "Falling") {
            TransType::Falling
        } else if str_eq(s, "FallingBouncing") {
            TransType::FallingBouncing
        } else if str_eq(s, "Bend1") {
            TransType::Bend1
        } else if str_eq(s, "Bend3") {
            TransType::Bend3
        } else if str_eq(s, "Bend5") {
            TransType::Bend5
        } else if str_eq(s, "Bounce1") {
            TransType::Bounce1
        } else if str_eq(s, "Bounce3") {
            TransType::Bounce3
        } else if str_eq(s, "Bounce5") {
            TransType::Bounce5
        } else {
            TransType::NoTrans
        }
    }
}

impl Default for TransType {
    /// No transition.
    fn default() -> (r: Self)
        ensures
            r == TransType::NoTrans,
    {
        TransType::NoTrans
    }
}

/// Whether an action name is one of the eight known actions.
pub open spec fn action_key_known(k: Seq<char>) -> bool {
    ||| k == "ChgBgImg"@
    ||| k == "ChgColColor"@
    ||| k == "ChgColImageColor"@
    ||| k == "ChgAlphaBlending"@
    ||| k == "ChgFloatOffsetX"@
    ||| k == "ChgFloatOffsetY"@
    ||| k == "ChgFloatDepth"@
    ||| k == "ChgTrajectory"@
}

/// The name part of an action token: what stands before the first colon.
pub open spec fn action_key(token: Seq<char>) -> Seq<char> {
    spec_split(token, set![':'])[0]
}

/// The payload of an action token: what stands between the first and the
/// second equals sign.
pub open spec fn action_payload(token: Seq<char>) -> Seq<char> {
    spec_split(token, set!['='])[1]
}

/// An action token is malformed when its name is known but the token has no
/// equals sign, or its payload does not parse as the value the action needs.
pub open spec fn action_err(token: Seq<char>) -> bool {
    let key = action_key(token);
    let eqs = spec_split(token, set!['=']);
    action_key_known(key) && (eqs.len() < 2 || ((key == "ChgFloatOffsetX"@ || key
        == "ChgFloatOffsetY"@ || key == "ChgFloatDepth"@) && dec_of(eqs[1]) is None) || (key
        == "ChgTrajectory"@ && spec_trajectory(eqs[1]) is None))
}

/// What a well-formed action token decodes to: an unknown name is the no-op
/// action, a known name selects its variant carrying the decoded payload.
pub open spec fn action_rel(token: Seq<char>, a: Action) -> bool {
    let key = action_key(token);
    let eqs = spec_split(token, set!['=']);
    if !action_key_known(key) {
        a == Action::NoAction
    } else {
        eqs.len() >= 2 && {
            let v = eqs[1];
            if key == "ChgBgImg"@ {
                a matches Action::ChgBgImg(s) && s@ == v
            } else if key == "ChgColColor"@ {
                a matches Action::ChgColColor(s) && s@ == v
            } else if key == "ChgColImageColor"@ {
                a matches Action::ChgColImageColor(s) && s@ == v
            } else if key == "ChgAlphaBlending"@ {
                a matches Action::ChgAlphaBlending(s) && s@ == v
            } else if key == "ChgFloatOffsetX"@ {
                a matches Action::ChgFloatOffsetX(d) && dec_of(v) == Some(d)
            } else if key == "ChgFloatOffsetY"@ {
                a matches Action::ChgFloatOffsetY(d) && dec_of(v) == Some(d)
            } else if key == "ChgFloatDepth"@ {
                a matches Action::ChgFloatDepth(d) && dec_of(v) == Some(d)
            } else {
                a matches Action::ChgTrajectory(t) && spec_trajectory(v) == Some(t)
            }
        }
    }
}

impl Action {
    /// Decodes one action token. `None` exactly on a malformed token; an
    /// unrecognized action name is the no-op action, not an error.
    pub fn from(token: &str) -> (r: Option<Action>)
        ensures
            r is Some <==> !action_err(token@),
            r matches Some(a) ==> action_rel(token@, a),
    {
        let colon_seps = vec![':'];
        let eq_seps = vec!['='];
        proof {
            action_names_distinct();
            lemma_set_of_one(':');
            lemma_set_of_one('=');
            assert(colon_seps@ =~= seq![':']);
            assert(eq_seps@ =~= seq!['=']);
        }
        let colon_split = split_on(token, &colon_seps);
        let eq_split = split_on(token, &eq_seps);
        let key = colon_split[0].as_str();
        proof {
            assert(colon_split.deep_view()[0] == colon_split@[0]@);
            assert(key@ == action_key(token@));
        }
        let known = str_eq(key, "ChgBgImg") || str_eq(key, "ChgColColor") || str_eq(
            key,
            "ChgColImageColor",
        ) || str_eq(key, "ChgAlphaBlending") || str_eq(key, "ChgFloatOffsetX") || str_eq(
            key,
            "ChgFloatOffsetY",
        ) || str_eq(key, "ChgFloatDepth") || str_eq(key, "ChgTrajectory");
        if !known {
            return Some(Action::NoAction);
        }
        if eq_split.len() < 2 {
            return None;
        }
        let value = eq_split[1].as_str();
        proof {
            assert(eq_split.deep_view()[1] == eq_split@[1]@);
            assert(value@ == action_payload(token@));
        }
        if str_eq(key, "ChgBgImg") {
            Some(Action::ChgBgImg(str_to_string(value)))
        } else if str_eq(key, "ChgColColor") {
            Some(Action::ChgColColor(str_to_string(value)))
        } else if str_eq(key, "ChgColImageColor") {
            Some(Action::ChgColImageColor(str_to_string(value)))
        } else if str_eq(key, "ChgAlphaBlending") {
            Some(Action::ChgAlphaBlending(str_to_string(value)))
        } else if str_eq(key, "ChgFloatOffsetX") {
            match crate::decimal::parse_decimal(value) {
                Some(d) => Some(Action::ChgFloatOffsetX(d)),
                None => None,
            }
        } else if str_eq(key, "ChgFloatOffsetY") {
            match crate::decimal::parse_decimal(value) {
                Some(d) => Some(Action::ChgFloatOffsetY(d)),
                None => None,
            }
        } else if str_eq(key, "ChgFloatDepth") {
            match crate::decimal::parse_decimal(value) {
                Some(d) => Some(Action::ChgFloatDepth(d)),
                None => None,
            }
        } else {
            match Trajectory::from(value) {
                Some(t) => Some(Action::ChgTrajectory(t)),
                None => None,
            }
        }
    }

    /// Renders the action for re-encoding. Only the background-image action
    /// keeps its exact form; every other action renders as the placeholder.
    pub fn to_string(&self) -> (r: String)
        ensures
            r@ == action_chars(*self),
    {
        match self {
            Action::ChgBgImg(val) => {
                let mut ret = str_to_string("ChgBgImg:LibImage=");
                crate::strutil::append_str(&mut ret, val.as_str());
                ret
            },
            _ => str_to_string(" "),
        }
    }
}

/// The re-encoded form of an action: the background-image action renders
/// exactly, every other action renders as a single-space placeholder.
pub open spec fn action_chars(a: Action) -> Seq<char> {
    match a {
        Action::ChgBgImg(s) => "ChgBgImg:LibImage="@ + s@,
        _ => " "@,
    }
}

/// The optional fields of an animation entry, folded over its `key=value`
/// tokens in order, the last occurrence winning.
pub open spec fn fold_fields(tokens: Seq<Seq<char>>) -> (Option<Effect>, Decimal, TransType)
    decreases tokens.len(),
{
    if tokens.len() == 0 {
        (None, Decimal { neg: false, mantissa: 0, scale: 0 }, TransType::NoTrans)
    } else {
        let prev = fold_fields(tokens.drop_last());
        let eqs = spec_split(tokens.last(), set!['=']);
        if eqs.len() < 2 {
            prev
        } else {
            let k = eqs[0];
            let v = eqs[1];
            if k == "Effect"@ {
                (Some(spec_effect(v)), prev.1, prev.2)
            } else if k == "TransitionTime"@ {
                (
                    prev.0,
                    match dec_of(v) {
                        Some(d) => d,
                        None => Decimal { neg: false, mantissa: 0, scale: 0 },
                    },
                    prev.2,
                )
            } else if k == "TransitionType"@ {
                (prev.0, prev.1, spec_transtype(v))
            } else {
                prev
            }
        }
    }
}

/// A token list is malformed when any token lacks an equals sign, or a
/// transition time is not a decimal literal.
pub open spec fn fields_err(tokens: Seq<Seq<char>>) -> bool {
    exists|i: int|
        0 <= i < tokens.len() && {
            let eqs = #[trigger] spec_split(tokens[i], set!['=']);
            eqs.len() < 2 || (eqs[0] == "TransitionTime"@ && dec_of(eqs[1]) is None)
        }
}

/// What one `|` segment of an animation row decodes to.
pub open spec fn anim_entry_rel(seg: Seq<char>, e: AnimEntry) -> bool {
    let tokens = spec_split(seg, set![',']);
    &&& action_rel(tokens[0], e.action)
    &&& (e.effect, e.trans_time, e.trans_type) == fold_fields(tokens)
}

/// One `|` segment is malformed when its action token or any of its
/// `key=value` tokens is.
pub open spec fn anim_entry_err(seg: Seq<char>) -> bool {
    let tokens = spec_split(seg, set![',']);
    action_err(tokens[0]) || fields_err(tokens)
}

/// Decodes one `|` segment of an animation row.
pub fn parse_anim_entry(seg: &str) -> (r: Option<AnimEntry>)
    ensures
        r is Some <==> !anim_entry_err(seg@),
        r matches Some(e) ==> anim_entry_rel(seg@, e),
{
    let comma_seps = vec![','];
    proof {
        lemma_set_of_one(',');
        assert(comma_seps@ =~= seq![',']);
    }
    let tokens = split_on(seg, &comma_seps);
    proof {
        assert(tokens.deep_view()[0] == tokens@[0]@);
    }
    let action = match Action::from(tokens[0].as_str()) {
        Some(a) => a,
        None => {
            return None;
        },
    };
    let eq_seps = vec!['='];
    proof {
        field_names_distinct();
        lemma_set_of_one('=');
        assert(eq_seps@ =~= seq!['=']);
    }
    let mut effect: Option<Effect> = None;
    let mut trans_time = Decimal { neg: false, mantissa: 0, scale: 0 };
    let mut trans_type = TransType::NoTrans;
    let ghost gtokens = spec_split(seg@, set![',']);
    let mut j: usize = 0;
    while j < tokens.len()
        invariant
            j <= tokens.len(),
            gtokens == spec_split(seg@, set![',']),
            tokens.deep_view() == gtokens,
            (effect, trans_time, trans_type) == fold_fields(gtokens.take(j as int)),
            forall|i: int|
                0 <= i < j ==> {
                    let eqs = #[trigger] spec_split(gtokens[i], set!['=']);
                    eqs.len() >= 2 && (eqs[0] != "TransitionTime"@ || dec_of(eqs[1]) is Some)
                },
            eq_seps@.to_set() == set!['='],
        decreases tokens.len() - j,
    {
        let eqs = split_on(tokens[j].as_str(), &eq_seps);
        proof {
            field_names_distinct();
            assert(gtokens.take(j + 1 as int).drop_last() =~= gtokens.take(j as int));
            assert(gtokens.take(j + 1 as int).last() == gtokens[j as int]);
            assert(tokens.deep_view()[j as int] == tokens[j as int]@);
        }
        if eqs.len() < 2 {
            proof {
                assert(spec_split(gtokens[j as int], set!['=']).len() < 2);
                assert(fields_err(gtokens));
            }
            return None;
        }
        let k = eqs[0].as_str();
        let v = eqs[1].as_str();
        proof {
            assert(eqs.deep_view()[0] == k@);
            assert(eqs.deep_view()[1] == v@);
        }
        if str_eq(k, "Effect") {
            effect = Some(Effect::from(v));
        } else if str_eq(k, "TransitionTime") {
            match crate::decimal::parse_decimal(v) {
                Some(d) => {
                    trans_time = d;
                },
                None => {
                    proof {
                        let eqsv = spec_split(gtokens[j as int], set!['=']);
                        assert(eqsv[0] == "TransitionTime"@ && dec_of(eqsv[1]) is None);
                        assert(fields_err(gtokens));
                    }
                    return None;
                },
            }
        } else if str_eq(k, "TransitionType") {
            trans_type = TransType::from(v);
        }
        j = j + 1;
    }
    proof {
        assert(gtokens.take(tokens.len() as int) =~= gtokens);
        assert(!fields_err(gtokens));
    }
    Some(AnimEntry { action, effect, trans_time, trans_type })
}

/// An animation row is malformed when its timestamp is not a number that
/// fits, or any of its entry segments is malformed.
pub open spec fn anim_row_err(v: Seq<char>) -> bool {
    let parts = spec_split(v, set!['|']);
    ||| !is_dec_digits(parts[0])
    ||| dec_val(parts[0]) > usize::MAX
    ||| exists|i: int| 1 <= i < parts.len() && anim_entry_err(#[trigger] parts[i])
}

/// What an animation row decodes to: the timestamp and one entry per
/// remaining segment, in order.
pub open spec fn anim_row_rel(v: Seq<char>, a: Anim) -> bool {
    let parts = spec_split(v, set!['|']);
    &&& a.time == dec_val(parts[0])
    &&& a.anim_entries.len() == parts.len() - 1
    &&& forall|i: int|
        0 <= i < a.anim_entries.len() ==> anim_entry_rel(parts[i + 1], #[trigger] a.anim_entries[i])
}

/// Decodes one animation row.
pub fn parse_anim_row(v: &str) -> (r: Option<Anim>)
    ensures
        r is Some <==> !anim_row_err(v@),
        r matches Some(a) ==> anim_row_rel(v@, a),
{
    let bar_seps = vec!['|'];
    proof {
        lemma_set_of_one('|');
        assert(bar_seps@ =~= seq!['|']);
    }
    let parts = split_on(v, &bar_seps);
    let ghost gparts = spec_split(v@, set!['|']);
    proof {
        assert(parts.deep_view()[0] == parts@[0]@);
    }
    let time = match crate::strutil::parse_usize(parts[0].as_str()) {
        Some(t) => t,
        None => {
            return None;
        },
    };
    let mut anim_entries: Vec<AnimEntry> = Vec::new();
    let mut i: usize = 1;
    while i < parts.len()
        invariant
            1 <= i <= parts.len(),
            gparts == spec_split(v@, set!['|']),
            parts.deep_view() == gparts,
            anim_entries.len() == i - 1,
            forall|k: int|
                0 <= k < anim_entries.len() ==> anim_entry_rel(
                    gparts[k + 1],
                    #[trigger] anim_entries@[k],
                ),
            forall|k: int| 1 <= k < i ==> !anim_entry_err(#[trigger] gparts[k]),
        decreases parts.len() - i,
    {
        proof {
            assert(parts.deep_view()[i as int] == parts[i as int]@);
        }
        match parse_anim_entry(parts[i].as_str()) {
            Some(e) => {
                anim_entries.push(e);
            },
            None => {
                proof {
                    assert(anim_entry_err(gparts[i as int]));
                }
                return None;
            },
        }
        i = i + 1;
    }
    Some(Anim { time, anim_entries })
}


/// The eight action names have these lengths, and the same-length pairs
/// differ; so no two of them are equal.
pub proof fn action_names_distinct()
    ensures
        "ChgBgImg"@.len() == 8,
        "ChgColColor"@.len() == 11,
        "ChgColImageColor"@.len() == 16,
        "ChgAlphaBlending"@.len() == 16,
        "ChgFloatOffsetX"@.len() == 15,
        "ChgFloatOffsetY"@.len() == 15,
        "ChgFloatDepth"@.len() == 13,
        "ChgTrajectory"@.len() == 13,
        "ChgColImageColor"@ != "ChgAlphaBlending"@,
        "ChgFloatOffsetX"@ != "ChgFloatOffsetY"@,
        "ChgFloatDepth"@ != "ChgTrajectory"@,
{
    reveal_strlit("ChgBgImg");
    reveal_strlit("ChgColColor");
    reveal_strlit("ChgColImageColor");
    reveal_strlit("ChgAlphaBlending");
    reveal_strlit("ChgFloatOffsetX");
    reveal_strlit("ChgFloatOffsetY");
    reveal_strlit("ChgFloatDepth");
    reveal_strlit("ChgTrajectory");
    assert(("ChgColImageColor"@)[3] != ("ChgAlphaBlending"@)[3]);
    assert(("ChgFloatOffsetX"@)[14] != ("ChgFloatOffsetY"@)[14]);
    assert(("ChgFloatDepth"@)[3] != ("ChgTrajectory"@)[3]);
}

/// The three optional-field names have these lengths, and the two
/// transition names differ; so no two of them are equal.
pub proof fn field_names_distinct()
    ensures
        "Effect"@.len() == 6,
        "TransitionTime"@.len() == 14,
        "TransitionType"@.len() == 14,
        "TransitionTime"@ != "TransitionType"@,
{
    reveal_strlit("Effect");
    reveal_strlit("TransitionTime");
    reveal_strlit("TransitionType");
    assert(("TransitionTime"@)[11] != ("TransitionType"@)[11]);
}

/// The mathematical image of a lyric line.
pub struct TextEntryV {
    pub display: Seq<char>,
    pub fragments: Seq<(int, Seq<char>)>,
}

/// The view of one lyric line.
pub open spec fn text_entry_view(t: TextEntry) -> TextEntryV {
    TextEntryV {
        display: t.display@,
        fragments: t.fragments@.map_values(|p: (usize, String)| (p.0 as int, p.1@)),
    }
}

/// The views of a vector of lyric lines.
pub open spec fn texts_view(ts: Seq<TextEntry>) -> Seq<TextEntryV> {
    ts.map_values(|t: TextEntry| text_entry_view(t))
}

/// The total number of fragments across a list of lyric lines.
pub open spec fn frag_count(ts: Seq<TextEntryV>) -> int
    decreases ts.len(),
{
    if ts.len() == 0 {
        0
    } else {
        ts.first().fragments.len() + frag_count(ts.drop_first())
    }
}

/// Whether a character is a hexadecimal digit.
pub open spec fn is_hex_digit(c: char) -> bool {
    ('0' <= c && c <= '9') || ('a' <= c && c <= 'f') || ('A' <= c && c <= 'F')
}

/// The value of a hexadecimal digit; other characters count as zero.
pub open spec fn hex_digit_val(c: char) -> int {
    if '0' <= c && c <= '9' {
        c as int - '0' as int
    } else if 'a' <= c && c <= 'f' {
        c as int - 'a' as int + 10
    } else if 'A' <= c && c <= 'F' {
        c as int - 'A' as int + 10
    } else {
        0
    }
}

/// The four channels of an eight-digit color string, in string order; which
/// channel is which is the caller's reading.
pub open spec fn color_channels(s: Seq<char>) -> (int, int, int, int)
    recommends
        s.len() == 8,
{
    (
        hex_digit_val(s[0]) * 16 + hex_digit_val(s[1]),
        hex_digit_val(s[2]) * 16 + hex_digit_val(s[3]),
        hex_digit_val(s[4]) * 16 + hex_digit_val(s[5]),
        hex_digit_val(s[6]) * 16 + hex_digit_val(s[7]),
    )
}

fn hex_nibble(c: char) -> (r: Option<u8>)
    ensures
        r is Some <==> is_hex_digit(c),
        r matches Some(v) ==> v as int == hex_digit_val(c),
{
    if '0' <= c && c <= '9' {
        Some((c as u32 as u8) - ('0' as u32 as u8))
    } else if 'a' <= c && c <= 'f' {
        Some((c as u32 as u8) - ('a' as u32 as u8) + 10)
    } else if 'A' <= c && c <= 'F' {
        Some((c as u32 as u8) - ('A' as u32 as u8) + 10)
    } else {
        None
    }
}

/// Decodes an eight-digit color string into its four byte channels, in
/// string order. `None` exactly when the string is not eight hex digits.
pub fn parse_color(s: &str) -> (r: Option<(u8, u8, u8, u8)>)
    ensures
        r is Some <==> s@.len() == 8 && (forall|i: int|
            0 <= i < 8 ==> is_hex_digit(#[trigger] s@[i])),
        r matches Some(c) ==> (c.0 as int, c.1 as int, c.2 as int, c.3 as int) == color_channels(
            s@,
        ),
{
    if s.unicode_len() != 8 {
        return None;
    }
    let mut out: [u8; 4] = [0, 0, 0, 0];
    let mut ch: usize = 0;
    while ch < 4
        invariant
            ch <= 4,
            s@.len() == 8,
            forall|i: int| 0 <= i < 2 * ch ==> is_hex_digit(#[trigger] s@[i]),
            forall|k: int|
                0 <= k < ch ==> out@[k] as int == hex_digit_val(s@[2 * k]) * 16 + hex_digit_val(
                    s@[2 * k + 1],
                ),
        decreases 4 - ch,
    {
        let hi = match hex_nibble(s.get_char(2 * ch)) {
            Some(v) => v,
            None => {
                return None;
            },
        };
        let lo = match hex_nibble(s.get_char(2 * ch + 1)) {
            Some(v) => v,
            None => {
                return None;
            },
        };
        out[ch] = hi * 16 + lo;
        ch = ch + 1;
    }
    Some((out[0], out[1], out[2], out[3]))
}

} // verus!
