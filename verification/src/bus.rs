//! Audio bus layouts.
use vstd::prelude::*;

verus! {

/// The channel configuration of one bus.
#[derive(Clone, Copy, Debug, PartialEq, Eq, Structural)]
pub enum ChannelConfig {
    Mono,
    Stereo,
    Custom(u32),
}

impl ChannelConfig {
    /// How many channels a configuration stands for.
    pub open spec fn count(self) -> nat {
        match self {
            ChannelConfig::Mono => 1,
            ChannelConfig::Stereo => 2,
            ChannelConfig::Custom(n) => n as nat,
        }
    }

    pub fn channel_count(&self) -> (r: u32)
        ensures
            r == self.count(),
    {
        match self {
            ChannelConfig::Mono => 1,
            ChannelConfig::Stereo => 2,
            ChannelConfig::Custom(n) => *n,
        }
    }
}

/// One named bus.
#[derive(Clone, Debug)]
pub struct BusConfig {
    pub name: &'static str,
    pub channels: ChannelConfig,
}

/// Describes the audio bus configuration of a plugin.
#[derive(Clone, Debug)]
pub struct BusLayout {
    pub inputs: Vec<BusConfig>,
    pub outputs: Vec<BusConfig>,
}

/// The channels of all of `buses` together.
pub open spec fn total_channels(buses: Seq<BusConfig>) -> nat
    decreases buses.len(),
{
    if buses.len() == 0 {
        0
    } else {
        total_channels(buses.drop_last()) + buses.last().channels.count()
    }
}

/// A prefix of a bus list never has more channels than the whole list.
pub proof fn lemma_total_channels_prefix(buses: Seq<BusConfig>, n: int)
    requires
        0 <= n <= buses.len(),
    ensures
        total_channels(buses.take(n)) <= total_channels(buses),
    decreases buses.len() - n,
{
    if n == buses.len() {
        assert(buses.take(n) =~= buses);
    } else {
        lemma_total_channels_prefix(buses, n + 1);
        assert(buses.take(n + 1).drop_last() =~= buses.take(n));
    }
}

/// Sums the channels of `buses` from index `from` on.
pub fn sum_channels(buses: &Vec<BusConfig>, from: usize) -> (r: u32)
    requires
        from <= buses@.len(),
        total_channels(buses@.skip(from as int)) <= u32::MAX,
    ensures
        r == total_channels(buses@.skip(from as int)),
{
    let ghost tail = buses@.skip(from as int);
    let mut sum: u32 = 0;
    let mut i: usize = from;
    while i < buses.len()
        invariant
            from <= i <= buses@.len(),
            tail == buses@.skip(from as int),
            sum == total_channels(tail.take(i - from)),
            total_channels(tail) <= u32::MAX,
        decreases buses@.len() - i,
    {
        proof {
            lemma_total_channels_prefix(tail, i - from + 1);
            assert(tail.take(i - from + 1).drop_last() =~= tail.take(i - from));
        }
        sum = sum + buses[i].channels.channel_count();
        i = i + 1;
    }
    proof {
        assert(tail.take(i - from) =~= tail);
    }
    sum
}

impl BusLayout {
    /// A layout without any bus.
    pub fn new() -> (r: Self)
        ensures
            r.inputs@ == Seq::<BusConfig>::empty(),
            r.outputs@ == Seq::<BusConfig>::empty(),
    {
        BusLayout { inputs: Vec::new(), outputs: Vec::new() }
    }

    /// One stereo bus in, one stereo bus out, both named `Main`.
    pub fn stereo() -> (r: Self)
        ensures
            r.inputs@ == seq![BusConfig { name: "Main", channels: ChannelConfig::Stereo }],
            r.outputs@ == seq![BusConfig { name: "Main", channels: ChannelConfig::Stereo }],
    {
        BusLayout::new().with_input("Main", ChannelConfig::Stereo).with_output(
            "Main",
            ChannelConfig::Stereo,
        )
    }

    /// The layout with one more input bus, behind those it has.
    pub fn with_input(self, name: &'static str, channels: ChannelConfig) -> (r: Self)
        ensures
            r.inputs@ == self.inputs@.push(BusConfig { name, channels }),
            r.outputs == self.outputs,
    {
        let mut layout = self;
        layout.inputs.push(BusConfig { name, channels });
        layout
    }

    /// The layout with one more output bus, behind those it has.
    pub fn with_output(self, name: &'static str, channels: ChannelConfig) -> (r: Self)
        ensures
            r.outputs@ == self.outputs@.push(BusConfig { name, channels }),
            r.inputs == self.inputs,
    {
        let mut layout = self;
        layout.outputs.push(BusConfig { name, channels });
        layout
    }

    pub fn total_input_channels(&self) -> (r: u32)
        requires
            total_channels(self.inputs@) <= u32::MAX,
        ensures
            r == total_channels(self.inputs@),
    {
        proof {
            assert(self.inputs@.skip(0) =~= self.inputs@);
        }
        sum_channels(&self.inputs, 0)
    }

    pub fn total_output_channels(&self) -> (r: u32)
        requires
            total_channels(self.outputs@) <= u32::MAX,
        ensures
            r == total_channels(self.outputs@),
    {
        proof {
            assert(self.outputs@.skip(0) =~= self.outputs@);
        }
        sum_channels(&self.outputs, 0)
    }
}

impl Default for BusLayout {
    fn default() -> (r: Self)
        ensures
            r.inputs@ == Seq::<BusConfig>::empty(),
            r.outputs@ == Seq::<BusConfig>::empty(),
    {
        BusLayout::new()
    }
}

/// The channels of several buses are those of each, added up: one for mono, two for stereo,
/// and its own number for any other.
pub proof fn law_channels_add_up(buses: Seq<BusConfig>, more: Seq<BusConfig>, bus: BusConfig)
    ensures
        total_channels(Seq::empty()) == 0,
        total_channels(buses + more) == total_channels(buses) + total_channels(more),
        bus.channels is Mono ==> total_channels(seq![bus]) == 1,
        bus.channels is Stereo ==> total_channels(seq![bus]) == 2,
        bus.channels matches ChannelConfig::Custom(n) ==> total_channels(seq![bus]) == n,
    decreases more.len(),
{
    assert(seq![bus].drop_last() =~= Seq::empty());
    assert(total_channels(seq![bus]) == total_channels(seq![bus].drop_last())
        + bus.channels.count());
    if more.len() == 0 {
        assert(buses + more =~= buses);
    } else {
        law_channels_add_up(buses, more.drop_last(), bus);
        assert((buses + more).drop_last() =~= buses + more.drop_last());
        assert((buses + more).last() == more.last());
    }
}

} // verus!
