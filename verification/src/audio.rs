//! Choosing a resampler, a capture device and its configuration.

use std::collections::BTreeSet;
use vstd::prelude::*;

use crate::models::CaptureDeviceInfo;
use crate::text::{same_text, trim};

verus! {

/// The stream carries stereo.
pub const TARGET_CHANNELS: u16 = 2;

/// How captured audio is brought to the rate of the stream.
#[derive(Debug, Clone, Copy, PartialEq, Eq, Structural)]
pub enum ResamplerMode {
    Linear,
    SincFast,
    SincQuality,
}

/// The mode that a name in lower case stands for.
pub open spec fn mode_named(name: Seq<char>) -> Option<ResamplerMode> {
    if name == "linear"@ || name == "basic"@ {
        Some(ResamplerMode::Linear)
    } else if name == "sinc"@ || name == "rubato"@ || name == "quality"@ || name == "hq"@ {
        Some(ResamplerMode::SincQuality)
    } else if name == "sinc-fast"@ || name == "fast"@ || name == "medium"@ {
        Some(ResamplerMode::SincFast)
    } else {
        None
    }
}

/// The name under which a mode is shown.
pub open spec fn mode_label(mode: ResamplerMode) -> Seq<char> {
    match mode {
        ResamplerMode::Linear => "linear"@,
        ResamplerMode::SincFast => "sinc-fast"@,
        ResamplerMode::SincQuality => "sinc"@,
    }
}

impl ResamplerMode {
    /// Reads the name of a mode. Case and surrounding white space do not matter.
    pub fn parse(name: &str) -> (r: Option<Self>)
        ensures
            r == mode_named(crate::text::lowercase(crate::text::trimmed(name@))),
            crate::text::all_ascii(crate::text::trimmed(name@)) ==> r == mode_named(
                crate::text::ascii_lower(crate::text::trimmed(name@)),
            ),
    {
        let lowered = trim(name).to_lowercase();
        Self::from_lower_name(lowered.as_str())
    }

    /// The mode of a name that is trimmed and in lower case already.
    pub fn from_lower_name(name: &str) -> (r: Option<Self>)
        ensures
            r == mode_named(name@),
    {
        if same_text(name, "linear") || same_text(name, "basic") {
            Some(Self::Linear)
        } else if same_text(name, "sinc") || same_text(name, "rubato") || same_text(name, "quality")
            || same_text(name, "hq") {
            Some(Self::SincQuality)
        } else if same_text(name, "sinc-fast") || same_text(name, "fast") || same_text(
            name,
            "medium",
        ) {
            Some(Self::SincFast)
        } else {
            None
        }
    }

    /// The name under which this mode is shown.
    pub fn label(&self) -> (r: &'static str)
        ensures
            r@ == mode_label(*self),
    {
        match self {
            Self::Linear => "linear",
            Self::SincFast => "sinc-fast",
            Self::SincQuality => "sinc",
        }
    }
}

/// One configuration that a device supports: a channel count and a range of
/// sample rates, both ends included.
#[derive(Debug, Clone, Copy, PartialEq, Eq)]
pub struct RateRange {
    pub channels: u16,
    pub min_rate: u32,
    pub max_rate: u32,
}

/// What the audio host reports of one input device. A name or a list that could
/// not be read is absent.
#[derive(Debug)]
pub struct DeviceReport {
    pub name: Option<String>,
    pub configs: Option<Vec<RateRange>>,
}

/// The configurations of a report, none if they could not be read.
pub open spec fn reported_configs(report: DeviceReport) -> Seq<RateRange> {
    match report.configs {
        Some(configs) => configs@,
        None => Seq::empty(),
    }
}

/// The name of a report, or a stand-in.
pub open spec fn reported_name(report: DeviceReport) -> Seq<char> {
    match report.name {
        Some(name) => name@,
        None => "Unknown Device"@,
    }
}

/// The largest channel count among `configs`, 0 if there is none.
pub open spec fn most_channels(configs: Seq<RateRange>) -> u16
    decreases configs.len(),
{
    if configs.len() == 0 {
        0
    } else if configs.last().channels > most_channels(configs.drop_last()) {
        configs.last().channels
    } else {
        most_channels(configs.drop_last())
    }
}

/// Whether `rate` is an end of the range.
pub open spec fn has_edge(config: RateRange, rate: u32) -> bool {
    config.min_rate == rate || config.max_rate == rate
}

/// Whether `rate` is an end of one of the ranges.
pub open spec fn is_edge_rate(configs: Seq<RateRange>, rate: u32) -> bool {
    exists|j: int| 0 <= j < configs.len() && has_edge(#[trigger] configs[j], rate)
}

/// Whether `rates` is strictly ascending.
pub open spec fn ascending(rates: Seq<u32>) -> bool {
    forall|i: int, j: int| 0 <= i < j < rates.len() ==> rates[i] < rates[j]
}

/// Whether `rates` lists the ends of the ranges of `configs`, each once, in
/// ascending order.
pub open spec fn lists_edge_rates(rates: Seq<u32>, configs: Seq<RateRange>) -> bool {
    &&& ascending(rates)
    &&& forall|rate: u32| #[trigger] rates.contains(rate) <==> is_edge_rate(configs, rate)
}

/// Whether `info` is what is announced of the device of `report`.
pub open spec fn describes(info: CaptureDeviceInfo, report: DeviceReport) -> bool {
    &&& info.id@ == reported_name(report)
    &&& info.name@ == reported_name(report)
    &&& info.channels == most_channels(reported_configs(report))
    &&& lists_edge_rates(info.sample_rates@, reported_configs(report))
}

/// A set of rates is ordered as the numbers are.
proof fn lemma_rates_are_ordered()
    ensures
        vstd::laws_cmp::obeys_cmp::<u32>(),
        vstd::laws_cmp::obeys_cmp::<&u32>(),
        vstd::std_specs::btree::key_obeys_cmp_spec::<u32>(),
{
    broadcast use vstd::laws_cmp::group_laws_cmp;
    broadcast use vstd::std_specs::btree::group_btree_axioms;

}

/// The rates of a set are handed out in ascending order.
proof fn lemma_increasing_is_ascending(keys: Seq<&u32>)
    requires
        vstd::std_specs::btree::increasing_seq(keys),
    ensures
        ascending(keys.unref()),
{
    broadcast use vstd::std_specs::btree::group_btree_axioms;

    lemma_rates_are_ordered();
    assert forall|i: int, j: int| 0 <= i < j < keys.len() implies keys.unref()[i]
        < keys.unref()[j] by {
        assert(vstd::std_specs::cmp::OrdSpec::cmp_spec(&keys[i], &keys[j]) is Less);
    }
}

/// The rates of a set, in ascending order.
fn listed(rates: &BTreeSet<u32>) -> (r: Vec<u32>)
    ensures
        ascending(r@),
        r@.to_set() == rates@,
{
    broadcast use vstd::std_specs::btree::group_btree_axioms;

    proof {
        lemma_rates_are_ordered();
    }
    let ghost keys = vstd::std_specs::iter::IteratorSpec::remaining(
        &vstd::std_specs::btree::spec_btree_keys_iter(rates),
    );
    let mut list: Vec<u32> = Vec::new();
    for rate in it: rates.iter()
        invariant
            it.seq() == keys,
            list@ == keys.unref().take(it.index()),
    {
        list.push(*rate);
        assert(list@ =~= keys.unref().take(it.index() + 1));
    }
    assert(list@ =~= keys.unref());
    proof {
        lemma_increasing_is_ascending(keys);
    }
    list
}

fn collect_rates(configs: &Vec<RateRange>) -> (r: (u16, Vec<u32>))
    ensures
        r.0 == most_channels(configs@),
        lists_edge_rates(r.1@, configs@),
{
    let mut channels: u16 = 0;
    let mut rates: BTreeSet<u32> = BTreeSet::new();
    let mut i: usize = 0;
    while i < configs.len()
        invariant
            i <= configs.len(),
            channels == most_channels(configs@.take(i as int)),
            forall|rate: u32| #[trigger]
                rates@.contains(rate) <==> is_edge_rate(configs@.take(i as int), rate),
        decreases configs.len() - i,
    {
        let config = configs[i];
        let ghost before = rates@;
        if config.channels > channels {
            channels = config.channels;
        }
        proof {
            lemma_rates_are_ordered();
        }
        rates.insert(config.min_rate);
        rates.insert(config.max_rate);
        proof {
            let past = configs@.take(i as int);
            let now = configs@.take(i + 1);
            assert(now.drop_last() == past);
            assert(now[i as int] == config);
            assert forall|rate: u32| #[trigger]
                rates@.contains(rate) <==> is_edge_rate(now, rate) by {
                if before.contains(rate) {
                    let j = choose|j: int|
                        0 <= j < past.len() && has_edge(#[trigger] past[j], rate);
                    assert(now[j] == past[j]);
                }
                if is_edge_rate(now, rate) && !has_edge(config, rate) {
                    let j = choose|j: int|
                        0 <= j < now.len() && has_edge(#[trigger] now[j], rate);
                    assert(past[j] == now[j]);
                }
            }
        }
        i = i + 1;
    }
    assert(configs@.take(i as int) == configs@);
    let list = listed(&rates);
    assert forall|rate: u32| #[trigger] list@.contains(rate) <==> is_edge_rate(configs@, rate) by {
        assert(list@.to_set().contains(rate) <==> rates@.contains(rate));
    }
    (channels, list)
}

/// Describes every input device of the host, in the host's order.
pub fn list_input_device_details(devices: Vec<DeviceReport>) -> (r: Vec<CaptureDeviceInfo>)
    ensures
        r@.len() == devices@.len(),
        forall|i: int| 0 <= i < r@.len() ==> describes(#[trigger] r@[i], devices@[i]),
        forall|i: int|
            0 <= i < r@.len() ==> is_most_channels(
                (#[trigger] r@[i]).channels,
                reported_configs(devices@[i]),
            ),
{
    let mut results: Vec<CaptureDeviceInfo> = Vec::new();
    let mut i: usize = 0;
    while i < devices.len()
        invariant
            i <= devices.len(),
            results@.len() == i,
            forall|k: int| 0 <= k < i ==> describes(#[trigger] results@[k], devices@[k]),
            forall|k: int|
                0 <= k < i ==> is_most_channels(
                    (#[trigger] results@[k]).channels,
                    reported_configs(devices@[k]),
                ),
        decreases devices.len() - i,
    {
        let report = &devices[i];
        let name = match &report.name {
            Some(name) => name.clone(),
            None => "Unknown Device".to_owned(),
        };
        let (channels, sample_rates) = match &report.configs {
            Some(configs) => collect_rates(configs),
            None => collect_rates(&Vec::new()),
        };
        proof {
            law_most_channels_is_the_maximum(reported_configs(devices@[i as int]));
        }
        results.push(CaptureDeviceInfo { id: name.clone(), name, channels, sample_rates });
        i = i + 1;
    }
    results
}

/// Whether a configuration can deliver stereo at `rate`.
pub open spec fn offers(config: RateRange, rate: u32) -> bool {
    config.channels == TARGET_CHANNELS && config.min_rate <= rate <= config.max_rate
}

/// The first configuration that delivers stereo at the rate of the stream. If
/// there is none, the device's default configuration is used.
pub fn select_config(configs: &Vec<RateRange>, target_rate: u32) -> (r: Option<usize>)
    ensures
        match r {
            Some(i) => {
                &&& i < configs@.len()
                &&& offers(configs@[i as int], target_rate)
                &&& forall|k: int| 0 <= k < i ==> !offers(#[trigger] configs@[k], target_rate)
            },
            None => forall|k: int|
                0 <= k < configs@.len() ==> !offers(#[trigger] configs@[k], target_rate),
        },
        r matches Some(i) ==> configs@[i as int].channels == 2 && configs@[i as int].min_rate
            <= target_rate <= configs@[i as int].max_rate,
        forall|k: int|
            0 <= k < configs@.len() && (#[trigger] configs@[k]).channels == 2
                && configs@[k].min_rate <= target_rate <= configs@[k].max_rate
                ==> (r matches Some(i) && i <= k),
{
    let mut i: usize = 0;
    while i < configs.len()
        invariant
            i <= configs.len(),
            forall|k: int| 0 <= k < i ==> !offers(#[trigger] configs@[k], target_rate),
        decreases configs.len() - i,
    {
        let config = configs[i];
        if config.channels == TARGET_CHANNELS && target_rate >= config.min_rate && target_rate
            <= config.max_rate {
            return Some(i);
        }
        i = i + 1;
    }
    None
}

/// Whether a device's name could be read and is `wanted`.
pub open spec fn is_named(name: Option<String>, wanted: Seq<char>) -> bool {
    name matches Some(name) && name@ == wanted
}

/// The first device with the wanted name.
pub fn find_device(names: &Vec<Option<String>>, wanted: &str) -> (r: Option<usize>)
    ensures
        match r {
            Some(i) => {
                &&& i < names@.len()
                &&& is_named(names@[i as int], wanted@)
                &&& forall|k: int| 0 <= k < i ==> !is_named(#[trigger] names@[k], wanted@)
            },
            None => forall|k: int|
                0 <= k < names@.len() ==> !is_named(#[trigger] names@[k], wanted@),
        },
{
    let mut i: usize = 0;
    while i < names.len()
        invariant
            i <= names.len(),
            forall|k: int| 0 <= k < i ==> !is_named(#[trigger] names@[k], wanted@),
        decreases names.len() - i,
    {
        if let Some(name) = &names[i] {
            if same_text(name.as_str(), wanted) {
                return Some(i);
            }
        }
        i = i + 1;
    }
    None
}

/// The list of rates is settled: no two lists can be the one of a device.
pub proof fn law_rate_list_is_unique(a: Seq<u32>, b: Seq<u32>, configs: Seq<RateRange>)
    requires
        lists_edge_rates(a, configs),
        lists_edge_rates(b, configs),
    ensures
        a == b,
{
    assert forall|rate: u32| a.contains(rate) <==> b.contains(rate) by {
        assert(a.contains(rate) <==> is_edge_rate(configs, rate));
    }
    lemma_ascending_is_unique(a, b);
}

/// Two ascending lists of the same numbers are equal.
proof fn lemma_ascending_is_unique(a: Seq<u32>, b: Seq<u32>)
    requires
        ascending(a),
        ascending(b),
        forall|rate: u32| a.contains(rate) <==> b.contains(rate),
    ensures
        a == b,
    decreases a.len(),
{
    if a.len() == 0 {
        if b.len() > 0 {
            assert(b.contains(b[0]));
        }
    } else {
        assert(a.contains(a.last()));
        let k = b.index_of(a.last());
        assert(b.contains(b.last()));
        let j = a.index_of(b.last());
        assert(a.last() == b.last());
        let front_a = a.drop_last();
        let front_b = b.drop_last();
        assert forall|rate: u32| front_a.contains(rate) <==> front_b.contains(rate) by {
            if front_a.contains(rate) {
                let i = front_a.index_of(rate);
                assert(a[i] == rate);
                assert(a.contains(rate));
                let m = b.index_of(rate);
                assert(front_b[m] == rate);
            }
            if front_b.contains(rate) {
                let i = front_b.index_of(rate);
                assert(b[i] == rate);
                assert(b.contains(rate));
                let m = a.index_of(rate);
                assert(front_a[m] == rate);
            }
        }
        lemma_ascending_is_unique(front_a, front_b);
        assert(a =~= front_a.push(a.last()));
        assert(b =~= front_b.push(b.last()));
    }
}

/// Every label reads back as the mode it belongs to.
pub proof fn law_label_reads_back(mode: ResamplerMode)
    ensures
        crate::text::trimmed(mode_label(mode)) == mode_label(mode),
        crate::text::all_ascii(mode_label(mode)),
        crate::text::ascii_lower(mode_label(mode)) == mode_label(mode),
        mode_named(crate::text::ascii_lower(crate::text::trimmed(mode_label(mode)))) == Some(mode),
{
    reveal_strlit("linear");
    reveal_strlit("sinc-fast");
    reveal_strlit("sinc");
    reveal_strlit("basic");
    reveal_strlit("rubato");
    reveal_strlit("quality");
    reveal_strlit("hq");
    let label = mode_label(mode);
    assert(crate::text::ascii_lower(label) =~= label);
    assert(label[0] == 'l' || label[0] == 's');
    assert(label.last() == 'r' || label.last() == 't' || label.last() == 'c');
    if mode == ResamplerMode::SincFast {
        assert(label.len() == 9);
    } else if mode == ResamplerMode::SincQuality {
        assert(label.len() == 4);
        assert("basic"@.len() == 5);
        assert("linear"@.len() == 6);
    }
}

/// Whether `channels` is the maximum over `configs`: at least that of each, and that of
/// some one of them, or 0 if there is none.
pub open spec fn is_most_channels(channels: u16, configs: Seq<RateRange>) -> bool {
    &&& forall|k: int| 0 <= k < configs.len() ==> (#[trigger] configs[k]).channels <= channels
    &&& configs.len() > 0 ==> exists|k: int|
        0 <= k < configs.len() && (#[trigger] configs[k]).channels == channels
    &&& configs.len() == 0 ==> channels == 0
}

/// The announced channel count is at least that of every configuration, and it is the
/// count of some one of them, or 0 if there is none.
pub proof fn law_most_channels_is_the_maximum(configs: Seq<RateRange>)
    ensures
        forall|k: int|
            0 <= k < configs.len() ==> (#[trigger] configs[k]).channels <= most_channels(configs),
        configs.len() > 0 ==> exists|k: int|
            0 <= k < configs.len() && (#[trigger] configs[k]).channels == most_channels(configs),
        configs.len() == 0 ==> most_channels(configs) == 0,
    decreases configs.len(),
{
    if configs.len() > 0 {
        let past = configs.drop_last();
        law_most_channels_is_the_maximum(past);
        assert forall|k: int| 0 <= k < configs.len() implies (#[trigger] configs[k]).channels
            <= most_channels(configs) by {
            if k < past.len() {
                assert(past[k] == configs[k]);
            }
        }
        if configs.last().channels == most_channels(configs) {
            assert(configs[configs.len() - 1].channels == most_channels(configs));
        } else {
            let k = choose|k: int|
                0 <= k < past.len() && (#[trigger] past[k]).channels == most_channels(past);
            assert(configs[k].channels == most_channels(configs));
        }
    }
}

/// The listed rates are the ends of the ranges, both of each and no others, every one
/// smaller than the next.
#[verifier::spinoff_prover]
#[verifier::rlimit(40)]
pub proof fn law_listed_rates_are_the_ends(rates: Seq<u32>, configs: Seq<RateRange>)
    requires
        lists_edge_rates(rates, configs),
    ensures
        forall|k: int| 0 <= k < configs.len() ==> rates.contains((#[trigger] configs[k]).min_rate),
        forall|k: int| 0 <= k < configs.len() ==> rates.contains((#[trigger] configs[k]).max_rate),
        forall|rate: u32| #[trigger]
            rates.contains(rate) ==> exists|k: int|
                0 <= k < configs.len() && ((#[trigger] configs[k]).min_rate == rate
                    || configs[k].max_rate == rate),
        forall|i: int, j: int| 0 <= i < j < rates.len() ==> rates[i] < rates[j],
        configs.len() == 0 ==> rates.len() == 0,
{
    assert forall|k: int| 0 <= k < configs.len() implies rates.contains(
        (#[trigger] configs[k]).min_rate,
    ) && rates.contains(configs[k].max_rate) by {
        assert(has_edge(configs[k], configs[k].min_rate));
        assert(has_edge(configs[k], configs[k].max_rate));
        assert(is_edge_rate(configs, configs[k].min_rate));
        assert(is_edge_rate(configs, configs[k].max_rate));
    }
    assert forall|rate: u32| #[trigger] rates.contains(rate) implies exists|k: int|
        0 <= k < configs.len() && ((#[trigger] configs[k]).min_rate == rate || configs[k].max_rate
            == rate) by {
        let k = choose|k: int| 0 <= k < configs.len() && has_edge(#[trigger] configs[k], rate);
        assert(configs[k].min_rate == rate || configs[k].max_rate == rate);
    }
    if configs.len() == 0 && rates.len() > 0 {
        assert(rates.contains(rates[0]));
    }
}

/// What is announced of a device, in terms of what the host reported: its name under both
/// headings, the largest channel count, and the ends of its rate ranges. A device that
/// reported nothing is announced under a stand-in, without channels and rates.
#[verifier::spinoff_prover]
#[verifier::rlimit(40)]
pub proof fn law_announcement_tells_what_was_reported(info: CaptureDeviceInfo, report: DeviceReport)
    requires
        describes(info, report),
    ensures
        info.id@ == info.name@,
        report.name matches Some(name) ==> info.name@ == name@,
        report.name is None ==> info.name@ == "Unknown Device"@,
        report.configs is None ==> info.channels == 0 && info.sample_rates@.len() == 0,
        report.configs matches Some(configs) ==> is_most_channels(info.channels, configs@)
            && lists_edge_rates(info.sample_rates@, configs@),
{
    let configs = reported_configs(report);
    assert(is_most_channels(most_channels(configs), configs)) by {
        law_most_channels_is_the_maximum(configs);
    }
    assert(configs.len() == 0 ==> info.sample_rates@.len() == 0) by {
        law_listed_rates_are_the_ends(info.sample_rates@, configs);
    }
}

/// A configuration can be used exactly if it has two channels and the rate lies in its
/// range: either end or anything between.
pub proof fn law_offer_is_stereo_within_the_range(config: RateRange, rate: u32)
    ensures
        offers(config, rate) <==> config.channels == 2 && config.min_rate <= rate && rate
            <= config.max_rate,
{
}

/// A device is meant exactly if its name could be read and is the wanted one, to the
/// letter.
pub proof fn law_device_is_meant_by_its_name(name: Option<String>, wanted: Seq<char>)
    ensures
        is_named(name, wanted) <==> (name is Some && name->0@ =~= wanted),
{
}

/// The names of each mode. No other name means anything.
pub proof fn law_modes_have_these_names(name: Seq<char>)
    ensures
        mode_named(name) == Some(ResamplerMode::Linear) <==> name == "linear"@ || name == "basic"@,
        mode_named(name) == Some(ResamplerMode::SincQuality) <==> name == "sinc"@ || name
            == "rubato"@ || name == "quality"@ || name == "hq"@,
        mode_named(name) == Some(ResamplerMode::SincFast) <==> name == "sinc-fast"@ || name
            == "fast"@ || name == "medium"@,
{
    reveal_strlit("linear");
    reveal_strlit("basic");
    reveal_strlit("sinc");
    reveal_strlit("rubato");
    reveal_strlit("quality");
    reveal_strlit("hq");
    reveal_strlit("sinc-fast");
    reveal_strlit("fast");
    reveal_strlit("medium");
    assert("linear"@[0] == 'l' && "basic"@[0] == 'b' && "sinc"@[0] == 's' && "rubato"@[0] == 'r'
        && "quality"@[0] == 'q' && "hq"@[0] == 'h' && "sinc-fast"@[0] == 's' && "fast"@[0] == 'f'
        && "medium"@[0] == 'm');
    assert("sinc"@.len() == 4 && "sinc-fast"@.len() == 9);
}

/// Each mode is shown under one of its own names, and no two under the same.
pub proof fn law_labels(a: ResamplerMode, b: ResamplerMode)
    ensures
        mode_label(ResamplerMode::Linear) == "linear"@,
        mode_label(ResamplerMode::SincFast) == "sinc-fast"@,
        mode_label(ResamplerMode::SincQuality) == "sinc"@,
        mode_label(a) == mode_label(b) ==> a == b,
{
    reveal_strlit("linear");
    reveal_strlit("sinc");
    reveal_strlit("sinc-fast");
    assert("linear"@.len() == 6 && "sinc"@.len() == 4 && "sinc-fast"@.len() == 9);
}

} // verus!
