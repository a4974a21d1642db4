//! Parameter metadata, as the format wrappers and the chunker read it.
//!
//! Plain values are carried as the bit patterns of IEEE doubles.
use vstd::prelude::*;

verus! {

/// What a host may do with a parameter.
#[derive(Clone, Copy, Debug, PartialEq, Eq, Structural)]
pub struct ParamFlags {
    pub automatable: bool,
    pub hidden: bool,
    pub readonly: bool,
    pub is_bypass: bool,
    /// Changes of this parameter split an audio block.
    pub chunked: bool,
}

/// The shape of a parameter's range.
#[derive(Clone, Copy, Debug, PartialEq, Eq, Structural)]
pub enum ParamRange {
    Linear,
    Logarithmic,
    Discrete,
    Enum,
}

/// The MIDI message that drives a parameter.
#[derive(Clone, Copy, Debug, PartialEq, Eq, Structural)]
pub enum MidiSource {
    Cc(u8),
    PitchBend,
    ChannelPressure,
    ProgramChange,
}

/// Static metadata of one parameter.
#[derive(Clone, Copy, Debug)]
pub struct ParamInfo {
    pub id: u32,
    pub name: &'static str,
    pub short_name: &'static str,
    pub group: &'static str,
    pub unit: &'static str,
    pub range: ParamRange,
    pub min: u64,
    pub max: u64,
    pub default_plain: u64,
    /// Steps of a stepped range, zero for a continuous one.
    pub step_count: u32,
    pub flags: ParamFlags,
    pub midi_map: Option<MidiSource>,
    pub midi_channel: Option<u8>,
}

/// The id of the first bypass parameter, or `u32::MAX` where there is none.
pub open spec fn bypass_id(infos: Seq<ParamInfo>) -> u32
    decreases infos.len(),
{
    if infos.len() == 0 {
        u32::MAX
    } else if infos[0].flags.is_bypass {
        infos[0].id
    } else {
        bypass_id(infos.skip(1))
    }
}

pub fn find_bypass_id(infos: &Vec<ParamInfo>) -> (r: u32)
    ensures
        r == bypass_id(infos@),
{
    let mut i: usize = 0;
    proof {
        assert(infos@.skip(0) =~= infos@);
    }
    while i < infos.len()
        invariant
            i <= infos@.len(),
            bypass_id(infos@.skip(i as int)) == bypass_id(infos@),
        decreases infos@.len() - i,
    {
        proof {
            assert(infos@.skip(i as int).skip(1) =~= infos@.skip(i + 1));
        }
        if infos[i].flags.is_bypass {
            return infos[i].id;
        }
        i = i + 1;
    }
    u32::MAX
}

/// The parameters that are known without an instance of the plugin: those that its
/// parameter type lists. Where it lists none, an instance has to be asked.
pub fn param_infos_static(listed: Vec<ParamInfo>) -> (r: Option<Vec<ParamInfo>>)
    ensures
        match r {
            Some(infos) => infos == listed && listed@.len() > 0,
            None => listed@.len() == 0,
        },
{
    if listed.len() == 0 {
        None
    } else {
        Some(listed)
    }
}

/// The bypass is the first parameter that is marked as one, wherever it stands; without one
/// its number is the largest there is.
pub proof fn law_bypass_is_the_first_marked(infos: Seq<ParamInfo>, i: int)
    requires
        0 <= i <= infos.len(),
        forall|k: int| 0 <= k < i ==> !(#[trigger] infos[k]).flags.is_bypass,
    ensures
        i < infos.len() && infos[i].flags.is_bypass ==> bypass_id(infos) == infos[i].id,
        i == infos.len() ==> bypass_id(infos) == 0xFFFF_FFFF,
    decreases infos.len(),
{
    if i > 0 {
        let rest = infos.skip(1);
        assert(!infos[0].flags.is_bypass);
        assert forall|k: int| 0 <= k < i - 1 implies !(#[trigger] rest[k]).flags.is_bypass by {
            assert(rest[k] == infos[k + 1]);
        }
        law_bypass_is_the_first_marked(rest, i - 1);
        if i < infos.len() {
            assert(rest[i - 1] == infos[i]);
        }
    }
}

} // verus!
