//! What the editor window knows: the words its page and the plug-in share, the
//! packet that shows the page where every control stands, and the size and
//! address of the window.

use vstd::arithmetic::power2;
use vstd::prelude::*;

use crate::bits;
use crate::bits::Bits32;
use crate::params;
use crate::params::{
    LfoShape, LfoTarget, NoteDiv, ParamId, ParamKind, ReverbType, RoutingMode, ScSource,
    WettBoiParams,
};
use crate::probe;
use crate::protocol::WbPacket;
use crate::text;

verus! {

/// The size of the window before anybody changes it.
pub const EDITOR_WIDTH: u32 = 1280;

/// The size of the window before anybody changes it.
pub const EDITOR_HEIGHT: u32 = 720;

/// The narrowest window.
pub const MIN_WIDTH: u32 = 600;

/// The lowest window.
pub const MIN_HEIGHT: u32 = 380;

/// The widest window.
pub const MAX_WIDTH: u32 = 2560;

/// The highest window.
pub const MAX_HEIGHT: u32 = 1600;

/// A size that the window takes.
pub open spec fn size_is_allowed(width: u32, height: u32) -> bool {
    MIN_WIDTH <= width <= MAX_WIDTH && MIN_HEIGHT <= height <= MAX_HEIGHT
}

/// Does the window take this size?
pub fn allows_size(width: u32, height: u32) -> (r: bool)
    ensures
        r == size_is_allowed(width, height),
{
    MIN_WIDTH <= width && width <= MAX_WIDTH && MIN_HEIGHT <= height && height <= MAX_HEIGHT
}

/// Every note division, in `NoteDiv` order. The page shows exactly these.
pub const NOTE_DIV_NAMES: [&'static str; 8] = [
    "1/16",
    "1/8",
    "d1/8",
    "1/4",
    "d1/4",
    "1/2",
    "d1/2",
    "1/1",
];

/// The reverb types as the page names them, in `ReverbType` order.
pub const REVERB_NAMES: [&'static str; 4] = ["room", "hall", "plate", "spring"];

/// The sidechain sources as the page names them, in `ScSource` order.
pub const SOURCE_NAMES: [&'static str; 2] = ["internal", "sidechain"];

/// The LFO shapes as the page names them, in `LfoShape` order.
pub const SHAPE_NAMES: [&'static str; 5] = ["sine", "tri", "saw", "square", "s&h"];

/// The LFO targets as the page names them, in `LfoTarget` order.
pub const TARGET_NAMES: [&'static str; 4] = ["rev_wet", "dly_wet", "dly_fb", "filter"];

/// The routing modes as the page names them, in `RoutingMode` order.
pub const ROUTING_NAMES: [&'static str; 3] = ["parallel", "rev_to_dly", "dly_to_rev"];

/// The texts of a list of names.
pub open spec fn texts(names: Seq<&'static str>) -> Seq<Seq<char>> {
    Seq::new(names.len(), |i: int| names[i]@)
}

/// The words that a parameter understands, in the order of its variants. Other
/// parameters understand none.
pub open spec fn vocabulary(param_id: Seq<char>) -> Seq<Seq<char>> {
    if param_id == "rev_type"@ {
        texts(REVERB_NAMES@)
    } else if param_id == "sc_source"@ {
        texts(SOURCE_NAMES@)
    } else if param_id == "lfo_shape"@ {
        texts(SHAPE_NAMES@)
    } else if param_id == "lfo_target"@ {
        texts(TARGET_NAMES@)
    } else if param_id == "routing"@ {
        texts(ROUTING_NAMES@)
    } else if param_id == "dly_note_l"@ || param_id == "dly_note_r"@ {
        texts(NOTE_DIV_NAMES@)
    } else {
        Seq::empty()
    }
}

/// `i` is the first place of `word`, or there is none.
pub open spec fn is_place_of(words: Seq<Seq<char>>, word: Seq<char>, place: Option<usize>) -> bool {
    match place {
        Some(i) => {
            &&& i < words.len()
            &&& words[i as int] == word
            &&& forall|j: int| 0 <= j < i ==> words[j] != word
        },
        None => forall|j: int| 0 <= j < words.len() ==> words[j] != word,
    }
}

/// The first place of a word, or none.
pub open spec fn place_in(words: Seq<Seq<char>>, word: Seq<char>) -> Option<usize> {
    choose|place: Option<usize>| is_place_of(words, word, place)
}

/// There is only one first place.
pub proof fn lemma_one_place(words: Seq<Seq<char>>, word: Seq<char>, place: Option<usize>)
    requires
        is_place_of(words, word, place),
    ensures
        place_in(words, word) == place,
{
    let other = place_in(words, word);
    assert(is_place_of(words, word, other));
    match (place, other) {
        (Some(i), Some(j)) => {
            if i < j {
                assert(words[i as int] != word);
            } else if j < i {
                assert(words[j as int] != word);
            }
        },
        (Some(i), None) => {
            assert(words[i as int] != word);
        },
        (None, Some(j)) => {
            assert(words[j as int] != word);
        },
        (None, None) => {},
    }
}

/// The first place of a word in a list.
fn place_of(names: &[&'static str], word: &str) -> (r: Option<usize>)
    ensures
        is_place_of(texts(names@), word@, r),
{
    let mut i: usize = 0;
    while i < names.len()
        invariant
            i <= names@.len(),
            forall|j: int| 0 <= j < i ==> (#[trigger] texts(names@)[j]) != word@,
        decreases names.len() - i,
    {
        if text::same_text(names[i], word) {
            return Some(i);
        }
        i += 1;
    }
    None
}

/// The place of a note division as the page names it, matching the order of the
/// `NoteDiv` variants. Nothing for a name there is not.
pub fn note_div_index(name: &str) -> (r: Option<usize>)
    ensures
        is_place_of(texts(NOTE_DIV_NAMES@), name@, r),
{
    place_of(NOTE_DIV_NAMES.as_slice(), name)
}

/// The variant that a word of the page stands for.
///
/// Every word the page can send has to land on a variant here, or the parameter
/// silently never moves.
pub fn string_to_param_value(param_id: &str, s: &str) -> (r: Option<usize>)
    ensures
        is_place_of(vocabulary(param_id@), s@, r),
        r == place_in(vocabulary(param_id@), s@),
{
    let r = if text::same_text(param_id, "rev_type") {
        place_of(REVERB_NAMES.as_slice(), s)
    } else if text::same_text(param_id, "sc_source") {
        place_of(SOURCE_NAMES.as_slice(), s)
    } else if text::same_text(param_id, "lfo_shape") {
        place_of(SHAPE_NAMES.as_slice(), s)
    } else if text::same_text(param_id, "lfo_target") {
        place_of(TARGET_NAMES.as_slice(), s)
    } else if text::same_text(param_id, "routing") {
        place_of(ROUTING_NAMES.as_slice(), s)
    } else if text::same_text(param_id, "dly_note_l") || text::same_text(param_id, "dly_note_r") {
        note_div_index(s)
    } else {
        None
    };
    proof {
        lemma_one_place(vocabulary(param_id@), s@, r);
    }
    r
}

/// No word stands twice in a list.
pub open spec fn all_distinct(words: Seq<Seq<char>>) -> bool {
    forall|i: int, j: int| 0 <= i < j < words.len() ==> words[i] != words[j]
}

/// The words of a parameter are told apart: each stands for a variant of its
/// own.
pub proof fn law_words_are_distinct(param_id: Seq<char>)
    ensures
        all_distinct(vocabulary(param_id)),
{
    lemma_words();
    let words = vocabulary(param_id);
    assert forall|i: int, j: int| 0 <= i < j < words.len() implies words[i] != words[j] by {
        lemma_words();
    }
}

/// The letters of all words.
proof fn lemma_words()
    ensures
        all_distinct(texts(REVERB_NAMES@)),
        all_distinct(texts(SOURCE_NAMES@)),
        all_distinct(texts(SHAPE_NAMES@)),
        all_distinct(texts(TARGET_NAMES@)),
        all_distinct(texts(ROUTING_NAMES@)),
        all_distinct(texts(NOTE_DIV_NAMES@)),
{
    reveal_strlit("room");
    reveal_strlit("hall");
    reveal_strlit("plate");
    reveal_strlit("spring");
    assert("room"@[0] == 'r' && "hall"@[0] == 'h' && "plate"@[0] == 'p' && "spring"@[0] == 's');
    reveal_strlit("internal");
    reveal_strlit("sidechain");
    assert("internal"@[0] == 'i' && "sidechain"@[0] == 's');
    reveal_strlit("sine");
    reveal_strlit("tri");
    reveal_strlit("saw");
    reveal_strlit("square");
    reveal_strlit("s&h");
    assert("sine"@[1] == 'i' && "tri"@[1] == 'r' && "saw"@[1] == 'a' && "square"@[1] == 'q'
        && "s&h"@[1] == '&');
    reveal_strlit("rev_wet");
    reveal_strlit("dly_wet");
    reveal_strlit("dly_fb");
    reveal_strlit("filter");
    assert("rev_wet"@[0] == 'r' && "dly_wet"@[0] == 'd' && "dly_fb"@[0] == 'd' && "filter"@[0]
        == 'f');
    assert("dly_wet"@[4] == 'w' && "dly_fb"@[4] == 'f');
    reveal_strlit("parallel");
    reveal_strlit("rev_to_dly");
    reveal_strlit("dly_to_rev");
    assert("parallel"@[0] == 'p' && "rev_to_dly"@[0] == 'r' && "dly_to_rev"@[0] == 'd');
    reveal_strlit("1/16");
    reveal_strlit("1/8");
    reveal_strlit("d1/8");
    reveal_strlit("1/4");
    reveal_strlit("d1/4");
    reveal_strlit("1/2");
    reveal_strlit("d1/2");
    reveal_strlit("1/1");
    assert("1/16"@[0] == '1' && "1/8"@[0] == '1' && "d1/8"@[0] == 'd' && "1/4"@[0] == '1');
    assert("d1/4"@[0] == 'd' && "1/2"@[0] == '1' && "d1/2"@[0] == 'd' && "1/1"@[0] == '1');
    assert("1/16"@[2] == '1' && "1/8"@[2] == '8' && "1/4"@[2] == '4' && "1/2"@[2] == '2'
        && "1/1"@[2] == '1');
    assert("1/16"@.len() == 4 && "1/1"@.len() == 3);
    assert("d1/8"@[3] == '8' && "d1/4"@[3] == '4' && "d1/2"@[3] == '2');
}

/// The word of the page for a reverb type.
pub fn reverb_name(v: ReverbType) -> (r: &'static str)
    ensures
        r@ == texts(REVERB_NAMES@)[v.position()],
{
    REVERB_NAMES[v.index() as usize]
}

/// The word of the page for a sidechain source.
pub fn source_name(v: ScSource) -> (r: &'static str)
    ensures
        r@ == texts(SOURCE_NAMES@)[v.position()],
{
    SOURCE_NAMES[v.index() as usize]
}

/// The word of the page for an LFO shape.
pub fn shape_name(v: LfoShape) -> (r: &'static str)
    ensures
        r@ == texts(SHAPE_NAMES@)[v.position()],
{
    SHAPE_NAMES[v.index() as usize]
}

/// The word of the page for an LFO target.
pub fn target_name(v: LfoTarget) -> (r: &'static str)
    ensures
        r@ == texts(TARGET_NAMES@)[v.position()],
{
    TARGET_NAMES[v.index() as usize]
}

/// The word of the page for a routing mode.
pub fn routing_name(v: RoutingMode) -> (r: &'static str)
    ensures
        r@ == texts(ROUTING_NAMES@)[v.position()],
{
    ROUTING_NAMES[v.index() as usize]
}

/// The word of the page for a note division.
pub fn note_name(v: NoteDiv) -> (r: &'static str)
    ensures
        r@ == texts(NOTE_DIV_NAMES@)[v.position()],
{
    NOTE_DIV_NAMES[v.index() as usize]
}

/// Where every control stands, and what the audio side last measured, as one
/// packet for the page.
///
/// The meters stay at zero: they are filled in when the packet is sent.
pub fn snapshot_params(
    params: &WettBoiParams,
    bpm: Bits32,
    duck_depth: Bits32,
    lfo_value: Bits32,
    threshold_lin: Bits32,
) -> (r: WbPacket)
    ensures
        r.bpm == bpm,
        r.rev_enabled == params.rev_enabled,
        r.rev_predelay == params.rev_predelay,
        r.rev_size == params.rev_size,
        r.rev_decay == params.rev_decay,
        r.rev_damp == params.rev_damp,
        r.rev_width == params.rev_width,
        r.rev_wet == params.rev_wet,
        r.rev_type@ == texts(REVERB_NAMES@)[params.rev_type.position()],
        r.rev_freeze == params.rev_freeze,
        r.rev_eq_hp == params.rev_eq_hp,
        r.rev_eq_lp == params.rev_eq_lp,
        r.sc_threshold == params.sc_threshold,
        r.sc_key_level == (Bits32 { bits: 0 }),
        r.sc_threshold_lin == threshold_lin,
        r.sc_attack == params.sc_attack,
        r.sc_hold == params.sc_hold,
        r.sc_release == params.sc_release,
        r.sc_source@ == texts(SOURCE_NAMES@)[params.sc_source.position()],
        r.sc_duck_depth == duck_depth,
        r.lfo_enabled == params.lfo_enabled,
        r.lfo_rate == params.lfo_rate,
        r.lfo_depth == params.lfo_depth,
        r.lfo_phase == params.lfo_phase,
        r.lfo_shape@ == texts(SHAPE_NAMES@)[params.lfo_shape.position()],
        r.lfo_target@ == texts(TARGET_NAMES@)[params.lfo_target.position()],
        r.lfo_value == lfo_value,
        r.dly_enabled == params.dly_enabled,
        r.dly_sync == params.dly_sync,
        r.dly_time_l == params.dly_time_l,
        r.dly_time_r == params.dly_time_r,
        r.dly_note_l@ == texts(NOTE_DIV_NAMES@)[params.dly_note_l.position()],
        r.dly_note_r@ == texts(NOTE_DIV_NAMES@)[params.dly_note_r.position()],
        r.dly_feedback == params.dly_feedback,
        r.dly_hp == params.dly_hp,
        r.dly_lp == params.dly_lp,
        r.dly_ping_pong == params.dly_ping_pong,
        r.dly_wet == params.dly_wet,
        r.dly_mod_rate == params.dly_mod_rate,
        r.dly_mod_depth == params.dly_mod_depth,
        r.dly_saturation == params.dly_saturation,
        r.mix == params.mix,
        r.bypass == params.bypass,
        r.routing@ == texts(ROUTING_NAMES@)[params.routing.position()],
        r.preset@ == "Init"@,
        r.input_peak_l == (Bits32 { bits: 0 }),
        r.input_peak_r == (Bits32 { bits: 0 }),
        r.output_peak_l == (Bits32 { bits: 0 }),
        r.output_peak_r == (Bits32 { bits: 0 }),
{
    WbPacket {
            bpm,
            rev_enabled: params.rev_enabled,
            rev_predelay: params.rev_predelay,
            rev_size: params.rev_size,
            rev_decay: params.rev_decay,
            rev_damp: params.rev_damp,
            rev_width: params.rev_width,
            rev_wet: params.rev_wet,
            rev_type: reverb_name(params.rev_type).to_string(),
            rev_freeze: params.rev_freeze,
            rev_eq_hp: params.rev_eq_hp,
            rev_eq_lp: params.rev_eq_lp,
            sc_threshold: params.sc_threshold,
            sc_key_level: Bits32 { bits: 0 },
            sc_threshold_lin: threshold_lin,
            sc_attack: params.sc_attack,
            sc_hold: params.sc_hold,
            sc_release: params.sc_release,
            sc_source: source_name(params.sc_source).to_string(),
            sc_duck_depth: duck_depth,
            lfo_enabled: params.lfo_enabled,
            lfo_rate: params.lfo_rate,
            lfo_depth: params.lfo_depth,
            lfo_phase: params.lfo_phase,
            lfo_shape: shape_name(params.lfo_shape).to_string(),
            lfo_target: target_name(params.lfo_target).to_string(),
            lfo_value,
            dly_enabled: params.dly_enabled,
            dly_sync: params.dly_sync,
            dly_time_l: params.dly_time_l,
            dly_time_r: params.dly_time_r,
            dly_note_l: note_name(params.dly_note_l).to_string(),
            dly_note_r: note_name(params.dly_note_r).to_string(),
            dly_feedback: params.dly_feedback,
            dly_hp: params.dly_hp,
            dly_lp: params.dly_lp,
            dly_ping_pong: params.dly_ping_pong,
            dly_wet: params.dly_wet,
            dly_mod_rate: params.dly_mod_rate,
            dly_mod_depth: params.dly_mod_depth,
            dly_saturation: params.dly_saturation,
            mix: params.mix,
            bypass: params.bypass,
            routing: routing_name(params.routing).to_string(),
            preset: "Init".to_string(),
            input_peak_l: Bits32 { bits: 0 },
            input_peak_r: Bits32 { bits: 0 },
            output_peak_l: Bits32 { bits: 0 },
            output_peak_r: Bits32 { bits: 0 },
    }
}

/// The ids of the parameters that understand words are told apart.
proof fn lemma_word_ids()
    ensures
        "sc_source"@ != "rev_type"@,
        "lfo_shape"@ != "rev_type"@ && "lfo_shape"@ != "sc_source"@,
        "lfo_target"@ != "rev_type"@ && "lfo_target"@ != "sc_source"@ && "lfo_target"@
            != "lfo_shape"@,
        "routing"@ != "rev_type"@ && "routing"@ != "sc_source"@ && "routing"@ != "lfo_shape"@
            && "routing"@ != "lfo_target"@,
        forall|id: Seq<char>|
            id == "dly_note_l"@ || id == "dly_note_r"@ ==> #[trigger] vocabulary(id) == texts(
                NOTE_DIV_NAMES@,
            ),
{
    reveal_strlit("rev_type");
    reveal_strlit("sc_source");
    reveal_strlit("lfo_shape");
    reveal_strlit("lfo_target");
    reveal_strlit("routing");
    reveal_strlit("dly_note_l");
    reveal_strlit("dly_note_r");
    assert("rev_type"@.len() == 8 && "sc_source"@.len() == 9 && "lfo_shape"@.len() == 9);
    assert("lfo_target"@.len() == 10 && "routing"@.len() == 7);
    assert("lfo_shape"@[0] == 'l' && "sc_source"@[0] == 's');
    assert("lfo_target"@[0] == 'l' && "dly_note_l"@[0] == 'd' && "dly_note_r"@[0] == 'd');
}

/// A word that the plug-in reports is one it understands: sent back for the
/// same parameter, it stands for the variant it was reported for.
pub proof fn law_a_reported_word_is_understood(params: WettBoiParams)
    ensures
        is_place_of(
            vocabulary("rev_type"@),
            texts(REVERB_NAMES@)[params.rev_type.position()],
            Some(params.rev_type.position() as usize),
        ),
        is_place_of(
            vocabulary("sc_source"@),
            texts(SOURCE_NAMES@)[params.sc_source.position()],
            Some(params.sc_source.position() as usize),
        ),
        is_place_of(
            vocabulary("lfo_shape"@),
            texts(SHAPE_NAMES@)[params.lfo_shape.position()],
            Some(params.lfo_shape.position() as usize),
        ),
        is_place_of(
            vocabulary("lfo_target"@),
            texts(TARGET_NAMES@)[params.lfo_target.position()],
            Some(params.lfo_target.position() as usize),
        ),
        is_place_of(
            vocabulary("routing"@),
            texts(ROUTING_NAMES@)[params.routing.position()],
            Some(params.routing.position() as usize),
        ),
        is_place_of(
            vocabulary("dly_note_l"@),
            texts(NOTE_DIV_NAMES@)[params.dly_note_l.position()],
            Some(params.dly_note_l.position() as usize),
        ),
        is_place_of(
            vocabulary("dly_note_r"@),
            texts(NOTE_DIV_NAMES@)[params.dly_note_r.position()],
            Some(params.dly_note_r.position() as usize),
        ),
{
    lemma_word_ids();
    lemma_words();
}

/// Every variant of every choice has its word, and no other parameter
/// understands words.
pub proof fn law_every_variant_has_a_word(p: ParamId)
    ensures
        match p.described().kind {
            ParamKind::Choice { variants, variant } => vocabulary(p.described().id@).len()
                == variants,
            _ => vocabulary(p.described().id@).len() == 0,
        },
{
    let id = p.described().id@;
    if id == ParamId::RevType.described().id@ {
        params::law_ids_are_distinct(p, ParamId::RevType);
    }
    if id == ParamId::ScSource.described().id@ {
        params::law_ids_are_distinct(p, ParamId::ScSource);
    }
    if id == ParamId::LfoShape.described().id@ {
        params::law_ids_are_distinct(p, ParamId::LfoShape);
    }
    if id == ParamId::LfoTarget.described().id@ {
        params::law_ids_are_distinct(p, ParamId::LfoTarget);
    }
    if id == ParamId::Routing.described().id@ {
        params::law_ids_are_distinct(p, ParamId::Routing);
    }
    if id == ParamId::DlyNoteL.described().id@ {
        params::law_ids_are_distinct(p, ParamId::DlyNoteL);
    }
    if id == ParamId::DlyNoteR.described().id@ {
        params::law_ids_are_distinct(p, ParamId::DlyNoteR);
    }
    lemma_word_ids();
}

/// A size from 0.5 to 4, whatever scale a host asks for.
pub open spec fn sane_scale(factor: Bits32) -> Bits32 {
    factor.clamped(Bits32 { bits: 0x3f00_0000 }, Bits32 { bits: 0x4080_0000 })
}

/// A number of pixels kept between two others.
pub open spec fn kept(n: u32, lo: u32, hi: u32) -> u32 {
    if n < lo {
        lo
    } else if n > hi {
        hi
    } else {
        n
    }
}

/// A number of pixels kept between two others.
fn keep(n: u32, lo: u32, hi: u32) -> (r: u32)
    ensures
        r == kept(n, lo, hi),
{
    if n < lo {
        lo
    } else if n > hi {
        hi
    } else {
        n
    }
}

/// The window of the editor: the licence token it opens with, its scale and its
/// size.
#[derive(Clone, Debug)]
pub struct WettBoiEditor {
    auth_token: Option<String>,
    scale_factor: Bits32,
    width: u32,
    height: u32,
}

impl WettBoiEditor {
    /// The licence token.
    pub closed spec fn token(&self) -> Option<Seq<char>> {
        match self.auth_token {
            Some(t) => Some(t@),
            None => None,
        }
    }

    /// How much larger than its size the window is drawn.
    pub closed spec fn scale(&self) -> Bits32 {
        self.scale_factor
    }

    /// The width and the height before they are scaled.
    pub closed spec fn extent(&self) -> (u32, u32) {
        (self.width, self.height)
    }

    /// The size is one that the window takes, and the scale is sane.
    pub open spec fn wf(&self) -> bool {
        &&& size_is_allowed(self.extent().0, self.extent().1)
        &&& self.scale() == sane_scale(self.scale())
    }

    /// A window that nobody has changed.
    pub fn new(auth_token: Option<String>) -> (r: WettBoiEditor)
        ensures
            r.wf(),
            r.token() == (match auth_token {
                Some(t) => Some(t@),
                None => None,
            }),
            r.scale() == bits::one(),
            r.extent() == (EDITOR_WIDTH, EDITOR_HEIGHT),
            r.extent() == (1280u32, 720u32),
    {
        proof {
            lemma_scales();
        }
        WettBoiEditor {
            auth_token,
            scale_factor: Bits32 { bits: 0x3f80_0000 },
            width: EDITOR_WIDTH,
            height: EDITOR_HEIGHT,
        }
    }

    /// Set the scale that the host asks for, kept to a sane range so that a
    /// misbehaving host cannot shrink the window to nothing.
    pub fn set_scale_factor(&mut self, factor: Bits32) -> (r: bool)
        requires
            old(self).wf(),
        ensures
            r,
            final(self).wf(),
            final(self).scale() == sane_scale(factor),
            final(self).extent() == old(self).extent(),
            final(self).token() == old(self).token(),
    {
        proof {
            lemma_scales();
        }
        self.scale_factor = factor.clamp(
            Bits32 { bits: 0x3f00_0000 },
            Bits32 { bits: 0x4080_0000 },
        );
        true
    }

    /// Set the size that the host asks for, as near as the window takes it. The
    /// result is the size it has now.
    pub fn set_size(&mut self, width: u32, height: u32) -> (r: (u32, u32))
        requires
            old(self).wf(),
        ensures
            final(self).wf(),
            final(self).extent() == (
                kept(width, MIN_WIDTH, MAX_WIDTH),
                kept(height, MIN_HEIGHT, MAX_HEIGHT),
            ),
            r == final(self).extent(),
            final(self).scale() == old(self).scale(),
            final(self).token() == old(self).token(),
    {
        self.width = keep(width, MIN_WIDTH, MAX_WIDTH);
        self.height = keep(height, MIN_HEIGHT, MAX_HEIGHT);
        (self.width, self.height)
    }

    /// The size before it is scaled.
    pub fn size(&self) -> (r: (u32, u32))
        ensures
            r == self.extent(),
    {
        (self.width, self.height)
    }

    /// The scale.
    pub fn scale_factor(&self) -> (r: Bits32)
        ensures
            r == self.scale(),
    {
        self.scale_factor
    }

    /// The address that the window loads.
    pub fn url(&self) -> (r: String)
        ensures
            r@ == probe::address(self.token()),
    {
        match &self.auth_token {
            Some(t) => probe::interface_url(Some(t.as_str())),
            None => probe::interface_url(None),
        }
    }
}

/// The range of the scale.
proof fn lemma_scales()
    ensures
        sane_scale(bits::one()) == bits::one(),
        forall|f: Bits32| sane_scale(#[trigger] sane_scale(f)) == sane_scale(f),
{
    let lo = Bits32 { bits: 0x3f00_0000 };
    let hi = Bits32 { bits: 0x4080_0000 };
    bits::law_rank_is_the_order(lo, hi);
    bits::law_rank_is_the_order(lo, bits::one());
    bits::law_rank_is_the_order(bits::one(), hi);
}

/// Pixels: the whole part of a number, as far as 32 bits hold it.
pub fn to_pixels(x: Bits32) -> (r: u32)
    ensures
        r == (if x.truncated() > u32::MAX {
            u32::MAX as nat
        } else {
            x.truncated()
        }),
{
    let n = x.whole();
    if n > u32::MAX as u64 {
        u32::MAX
    } else {
        n as u32
    }
}

/// The folders that a window keeps its data in, in the order in which they are
/// tried: the shared one, where the sign-in lives, a second one for when the
/// shared one is taken, and one named after the moment it was opened.
pub fn data_dir_names(name: &str, nanos: u128) -> (r: Vec<String>)
    ensures
        r@.len() == 3,
        r@[0]@ == name@,
        r@[1]@ == name@ + "-2"@,
        r@[2]@ == name@ + "-"@ + text::decimal(nanos as nat),
{
    let mut second = name.to_string();
    second.append("-2");
    let mut third = name.to_string();
    third.append("-");
    text::push_decimal(&mut third, nanos);
    let mut r: Vec<String> = Vec::new();
    r.push(name.to_string());
    r.push(second);
    r.push(third);
    r
}

/// A window takes any size from 600 by 380 to 2560 by 1600 pixels and no other, and a
/// size that it does not take becomes the nearest one that it does.
pub proof fn law_a_window_keeps_to_its_bounds(width: u32, height: u32)
    ensures
        size_is_allowed(width, height) <==> 600 <= width && width <= 2560 && 380 <= height && height
            <= 1600,
        ({
            let (w, h) = (
                kept(width, MIN_WIDTH, MAX_WIDTH),
                kept(height, MIN_HEIGHT, MAX_HEIGHT),
            );
            &&& size_is_allowed(w, h)
            &&& 600 <= width <= 2560 ==> w == width
            &&& width < 600 ==> w == 600
            &&& width > 2560 ==> w == 2560
            &&& 380 <= height <= 1600 ==> h == height
            &&& height < 380 ==> h == 380
            &&& height > 1600 ==> h == 1600
        }),
{
}

/// A scale from a half to four is taken as it is, and the nearer of these instead of
/// any other.
pub proof fn law_a_scale_is_sane(factor: Bits32)
    requires
        !factor.is_nan(),
    ensures
        ({
            let (v, half, four) = (bits::value(factor), 1 as real / 2 as real, 4 as real);
            &&& half <= v <= four ==> sane_scale(factor) == factor
            &&& v < half ==> bits::value(sane_scale(factor)) == half
            &&& v > four ==> bits::value(sane_scale(factor)) == four
        }),
{
    let top = Bits32 { bits: 0x4080_0000 };
    bits::lemma_values();
    power2::lemma2_to64();
    bits::lemma_value_of_parts(top, 129, 0);
    let (f, q) = (0x80_0000 as real, power2::pow2(21) as real);
    assert(f / q == 4 as real) by (nonlinear_arith)
        requires
            f == 8_388_608 as real,
            q == 2_097_152 as real,
    ;
    bits::law_a_clamped_number_lies_between(factor, Bits32 { bits: 0x3f00_0000 }, top);
}

/// The words that each parameter understands, in the order of its variants; every
/// other parameter understands none.
pub proof fn law_every_parameter_has_its_words(id: Seq<char>)
    ensures
        id == "rev_type"@ ==> vocabulary(id) == seq!["room"@, "hall"@, "plate"@, "spring"@],
        id == "sc_source"@ ==> vocabulary(id) == seq!["internal"@, "sidechain"@],
        id == "lfo_shape"@ ==> vocabulary(id) == seq!["sine"@, "tri"@, "saw"@, "square"@, "s&h"@],
        id == "lfo_target"@ ==> vocabulary(id) == seq![
            "rev_wet"@,
            "dly_wet"@,
            "dly_fb"@,
            "filter"@,
        ],
        id == "routing"@ ==> vocabulary(id) == seq!["parallel"@, "rev_to_dly"@, "dly_to_rev"@],
        id == "dly_note_l"@ || id == "dly_note_r"@ ==> vocabulary(id) == seq![
            "1/16"@,
            "1/8"@,
            "d1/8"@,
            "1/4"@,
            "d1/4"@,
            "1/2"@,
            "d1/2"@,
            "1/1"@,
        ],
        id != "rev_type"@ && id != "sc_source"@ && id != "lfo_shape"@ && id != "lfo_target"@ && id
            != "routing"@ && id != "dly_note_l"@ && id != "dly_note_r"@ ==> vocabulary(id).len()
            == 0,
{
    lemma_word_ids();
    assert(texts(REVERB_NAMES@) =~= seq!["room"@, "hall"@, "plate"@, "spring"@]);
    assert(texts(SOURCE_NAMES@) =~= seq!["internal"@, "sidechain"@]);
    assert(texts(SHAPE_NAMES@) =~= seq!["sine"@, "tri"@, "saw"@, "square"@, "s&h"@]);
    assert(texts(TARGET_NAMES@) =~= seq!["rev_wet"@, "dly_wet"@, "dly_fb"@, "filter"@]);
    assert(texts(ROUTING_NAMES@) =~= seq!["parallel"@, "rev_to_dly"@, "dly_to_rev"@]);
    assert(texts(NOTE_DIV_NAMES@) =~= seq![
        "1/16"@,
        "1/8"@,
        "d1/8"@,
        "1/4"@,
        "d1/4"@,
        "1/2"@,
        "d1/2"@,
        "1/1"@,
    ]);
}

}
