//! Live monitoring: which channels are shown, when sampling stops, and the lines that are
//! written.

use vstd::prelude::*;
use vstd::string::*;

use crate::emi::{
    device_views, power_between, powers_lead_on, EmiDevice, EmiDeviceView, EmiMeasurement,
    PowerRatio,
};
use crate::text::{
    aligned_texts, ascii_lower, ascii_lowered, before_last_field, blanks_at_end, contains_text,
    decimal, decimal_is_digits, decimal_reads_back, fill, gap, is_ascii_text, is_numeral,
    is_white_space, join, join_texts, join_then_split, joined_one_by_one, last_field,
    left_aligned, left_aligned_gap, lowercase,
    numeral_value, occurs, occurs_between, push_decimal, push_left_aligned, push_right_aligned,
    repeated, right_aligned, right_aligned_reads_back, split, split_concat, split_text,
    split_then_join, texts, to_lowercase, trim, trimmed, without_end_blanks, without_end_space,
    without_start_space,
};

verus! {

/// The devices to show: all of them, or only the PAC1954 meters.
pub open spec fn shown(devices: Seq<EmiDeviceView>, show_all: bool) -> Seq<EmiDeviceView> {
    if show_all {
        devices
    } else {
        devices.filter(|d: EmiDeviceView| d.is_pac)
    }
}

/// Selects the devices to show.
pub fn select_devices(devices: Vec<EmiDevice>, show_all: bool) -> (res: Vec<EmiDevice>)
    ensures
        device_views(res@) == shown(device_views(devices@), show_all),
{
    if show_all {
        return devices;
    }
    let ghost all = device_views(devices@);
    let ghost keep = |d: EmiDeviceView| d.is_pac;
    let mut kept: Vec<EmiDevice> = Vec::new();
    proof {
        reveal(Seq::filter);
    }
    for device in it: devices
        invariant
            it.seq() == devices@,
            all == device_views(devices@),
            keep == (|d: EmiDeviceView| d.is_pac),
            device_views(kept@) == all.take(it.index() as int).filter(keep),
    {
        let ghost before = kept@;
        proof {
            reveal(Seq::filter);
            assert(all.take(it.index() + 1).drop_last() =~= all.take(it.index() as int));
            assert(all.take(it.index() + 1).last() == device@);
        }
        if device.is_pac {
            kept.push(device);
            assert(device_views(kept@) =~= device_views(before).push(kept@.last()@));
        }
    }
    proof {
        assert(all.take(all.len() as int) =~= all);
    }
    kept
}

/// The patterns of a filter: the pieces between commas, without the white space around them.
pub open spec fn filter_patterns(filter: Seq<char>) -> Seq<Seq<char>> {
    split(filter, ',').map_values(|p: Seq<char>| trimmed(p))
}

/// Takes a filter apart into its patterns.
pub fn parse_filter(filter: &str) -> (res: Vec<String>)
    ensures
        texts(res@) == filter_patterns(filter@),
{
    let pieces = split_text(filter, ',');
    let ghost all = filter_patterns(filter@);
    let mut patterns: Vec<String> = Vec::new();
    let mut i: usize = 0;
    while i < pieces.len()
        invariant
            0 <= i <= pieces@.len(),
            texts(pieces@) == split(filter@, ','),
            all == filter_patterns(filter@),
            texts(patterns@) == all.take(i as int),
        decreases pieces@.len() - i,
    {
        let ghost before = patterns@;
        assert(texts(pieces@)[i as int] == pieces@[i as int]@);
        patterns.push(trim(pieces[i].as_str()));
        proof {
            assert(texts(patterns@) =~= texts(before).push(patterns@.last()@));
            assert(all.take(i + 1) =~= all.take(i as int).push(all[i as int]));
        }
        i = i + 1;
    }
    proof {
        assert(all.take(i as int) =~= all);
    }
    patterns
}

/// Whether one of the patterns occurs in the name.
pub open spec fn any_occurs(patterns: Seq<Seq<char>>, name: Seq<char>) -> bool {
    exists|i: int| 0 <= i < patterns.len() && occurs(#[trigger] patterns[i], name)
}

/// Tells whether one of the patterns occurs in the name.
pub fn contains_any(name: &str, patterns: &Vec<String>) -> (res: bool)
    ensures
        res == any_occurs(texts(patterns@), name@),
{
    let mut i: usize = 0;
    while i < patterns.len()
        invariant
            0 <= i <= patterns@.len(),
            forall|k: int| 0 <= k < i ==> !occurs(#[trigger] texts(patterns@)[k], name@),
        decreases patterns@.len() - i,
    {
        assert(texts(patterns@)[i as int] == patterns@[i as int]@);
        if contains_text(name, patterns[i].as_str()) {
            return true;
        }
        i = i + 1;
    }
    false
}

/// Whether a channel passes a filter: one of the patterns occurs in its name, both taken in
/// lowercase.
pub open spec fn passes(filter: Seq<char>, channel_name: Seq<char>) -> bool {
    any_occurs(
        filter_patterns(filter).map_values(|p: Seq<char>| lowercase(p)),
        lowercase(channel_name),
    )
}

/// Whether a channel passes a filter in ASCII: one of the patterns occurs in its name, whether
/// letters are in upper or in lower case.
pub open spec fn passes_ascii(filter: Seq<char>, channel_name: Seq<char>) -> bool {
    any_occurs(
        filter_patterns(filter).map_values(|p: Seq<char>| ascii_lowered(p)),
        ascii_lowered(channel_name),
    )
}

/// Whether the patterns of a filter and the names of all channels are in ASCII.
pub open spec fn all_ascii(devices: Seq<EmiDeviceView>, filter: Seq<char>) -> bool {
    &&& forall|i: int|
        0 <= i < filter_patterns(filter).len() ==> is_ascii_text(
            #[trigger] filter_patterns(filter)[i],
        )
    &&& forall|i: int| 0 <= i < devices.len() ==> is_ascii_text(#[trigger] devices[i].channel_name)
}

fn lower_texts(patterns: &Vec<String>) -> (res: Vec<String>)
    ensures
        texts(res@) == texts(patterns@).map_values(|p: Seq<char>| lowercase(p)),
        (forall|i: int| 0 <= i < patterns@.len() ==> is_ascii_text(#[trigger] texts(patterns@)[i]))
            ==> texts(res@) == texts(patterns@).map_values(|p: Seq<char>| ascii_lowered(p)),
{
    let ghost all = texts(patterns@).map_values(|p: Seq<char>| lowercase(p));
    let mut lower: Vec<String> = Vec::new();
    let mut i: usize = 0;
    while i < patterns.len()
        invariant
            0 <= i <= patterns@.len(),
            all == texts(patterns@).map_values(|p: Seq<char>| lowercase(p)),
            texts(lower@) == all.take(i as int),
            forall|k: int|
                0 <= k < i && is_ascii_text(#[trigger] texts(patterns@)[k]) ==> all[k]
                    == ascii_lowered(texts(patterns@)[k]),
        decreases patterns@.len() - i,
    {
        let ghost before = lower@;
        assert(texts(patterns@)[i as int] == patterns@[i as int]@);
        lower.push(to_lowercase(patterns[i].as_str()));
        proof {
            assert(texts(lower@) =~= texts(before).push(lower@.last()@));
            assert(all.take(i + 1) =~= all.take(i as int).push(all[i as int]));
        }
        i = i + 1;
    }
    proof {
        assert(all.take(i as int) =~= all);
        if forall|k: int|
            0 <= k < patterns@.len() ==> is_ascii_text(#[trigger] texts(patterns@)[k]) {
            assert(all =~= texts(patterns@).map_values(|p: Seq<char>| ascii_lowered(p)));
        }
    }
    lower
}

/// The devices whose channel passes a filter, in their order; all of them without a filter.
pub open spec fn filtered(devices: Seq<EmiDeviceView>, filter: Option<Seq<char>>) -> Seq<
    EmiDeviceView,
> {
    match filter {
        Some(f) => devices.filter(|d: EmiDeviceView| passes(f, d.channel_name)),
        None => devices,
    }
}

/// Applies a filter to devices.
pub fn filter_devices(devices: Vec<EmiDevice>, filter: &Option<String>) -> (res: Vec<EmiDevice>)
    ensures
        device_views(res@) == filtered(
            device_views(devices@),
            match filter {
                Some(f) => Some(f@),
                None => None,
            },
        ),
        filter matches Some(f) ==> (all_ascii(device_views(devices@), f@) ==> device_views(res@)
            == device_views(devices@).filter(
            |d: EmiDeviceView| passes_ascii(f@, d.channel_name),
        )),
{
    let f = match filter {
        Some(f) => f,
        None => {
            return devices;
        },
    };
    let patterns = parse_filter(f.as_str());
    let lower = lower_texts(&patterns);
    let ghost all = device_views(devices@);
    let ghost keep = |d: EmiDeviceView| passes(f@, d.channel_name);
    let ghost keep_ascii = |d: EmiDeviceView| passes_ascii(f@, d.channel_name);
    let mut kept: Vec<EmiDevice> = Vec::new();
    proof {
        reveal(Seq::filter);
    }
    for device in it: devices
        invariant
            it.seq() == devices@,
            all == device_views(devices@),
            texts(lower@) == filter_patterns(f@).map_values(|p: Seq<char>| lowercase(p)),
            all_ascii(all, f@) ==> texts(lower@) == filter_patterns(f@).map_values(
                |p: Seq<char>| ascii_lowered(p),
            ),
            keep == (|d: EmiDeviceView| passes(f@, d.channel_name)),
            keep_ascii == (|d: EmiDeviceView| passes_ascii(f@, d.channel_name)),
            device_views(kept@) == all.take(it.index() as int).filter(keep),
            all_ascii(all, f@) ==> device_views(kept@) == all.take(it.index() as int).filter(
                keep_ascii,
            ),
    {
        let ghost before = kept@;
        proof {
            reveal(Seq::filter);
            assert(all.take(it.index() + 1).drop_last() =~= all.take(it.index() as int));
            assert(all.take(it.index() + 1).last() == device@);
        }
        let name = to_lowercase(device.channel_name.as_str());
        assert(all[it.index() as int].channel_name == device.channel_name@);
        if contains_any(name.as_str(), &lower) {
            kept.push(device);
            assert(device_views(kept@) =~= device_views(before).push(kept@.last()@));
        }
    }
    proof {
        assert(all.take(all.len() as int) =~= all);
    }
    kept
}

proof fn any_occurs_in_either(p: Seq<Seq<char>>, q: Seq<Seq<char>>, name: Seq<char>)
    ensures
        any_occurs(p + q, name) <==> any_occurs(p, name) || any_occurs(q, name),
{
    let both = p + q;
    if any_occurs(p, name) {
        let i = choose|i: int| 0 <= i < p.len() && occurs(#[trigger] p[i], name);
        assert(both[i] == p[i]);
    }
    if any_occurs(q, name) {
        let i = choose|i: int| 0 <= i < q.len() && occurs(#[trigger] q[i], name);
        assert(both[p.len() + i] == q[i]);
    }
    if any_occurs(both, name) {
        let i = choose|i: int| 0 <= i < both.len() && occurs(#[trigger] both[i], name);
        if i < p.len() {
            assert(p[i] == both[i]);
        } else {
            assert(q[i - p.len()] == both[i]);
        }
    }
}

/// A channel passes two filters joined by a comma if and only if it passes one of them.
pub proof fn passes_either(f: Seq<char>, g: Seq<char>, channel_name: Seq<char>)
    ensures
        passes(f + seq![','] + g, channel_name) <==> passes(f, channel_name) || passes(
            g,
            channel_name,
        ),
        passes_ascii(f + seq![','] + g, channel_name) <==> passes_ascii(f, channel_name)
            || passes_ascii(g, channel_name),
{
    split_concat(f, g, ',');
    let pf = filter_patterns(f);
    let pg = filter_patterns(g);
    let both = filter_patterns(f + seq![','] + g);
    assert(both =~= pf + pg);
    let lower = |p: Seq<char>| lowercase(p);
    assert(both.map_values(lower) =~= pf.map_values(lower) + pg.map_values(lower));
    any_occurs_in_either(pf.map_values(lower), pg.map_values(lower), lowercase(channel_name));
    let ascii = |p: Seq<char>| ascii_lowered(p);
    assert(both.map_values(ascii) =~= pf.map_values(ascii) + pg.map_values(ascii));
    any_occurs_in_either(pf.map_values(ascii), pg.map_values(ascii), ascii_lowered(channel_name));
}

proof fn empty_occurs(name: Seq<char>)
    ensures
        occurs(Seq::empty(), name),
{
    assert(name.subrange(0, 0int + Seq::<char>::empty().len()) =~= Seq::<char>::empty());
}

/// An empty pattern lets every channel pass: one that is empty in lowercase, and in an ASCII
/// filter one that is empty.
pub proof fn empty_pattern_passes(filter: Seq<char>, i: int, channel_name: Seq<char>)
    requires
        0 <= i < filter_patterns(filter).len(),
    ensures
        lowercase(filter_patterns(filter)[i]).len() == 0 ==> passes(filter, channel_name),
        filter_patterns(filter)[i].len() == 0 ==> passes_ascii(filter, channel_name),
{
    let pattern = filter_patterns(filter)[i];
    let empty = Seq::<char>::empty();
    if lowercase(pattern).len() == 0 {
        let patterns = filter_patterns(filter).map_values(|p: Seq<char>| lowercase(p));
        empty_occurs(lowercase(channel_name));
        assert(patterns[i] =~= empty);
    }
    if pattern.len() == 0 {
        let patterns = filter_patterns(filter).map_values(|p: Seq<char>| ascii_lowered(p));
        empty_occurs(ascii_lowered(channel_name));
        assert(patterns[i] =~= empty);
    }
}

proof fn lower_keeps_marks(c: char)
    ensures
        ascii_lower(c) == ',' <==> c == ',',
        is_white_space(ascii_lower(c)) <==> is_white_space(c),
        ascii_lower(ascii_lower(c)) == ascii_lower(c),
{
}

proof fn lowered_twice(s: Seq<char>)
    ensures
        ascii_lowered(ascii_lowered(s)) == ascii_lowered(s),
{
    assert forall|i: int| 0 <= i < s.len() implies ascii_lowered(ascii_lowered(s))[i]
        == ascii_lowered(s)[i] by {
        lower_keeps_marks(s[i]);
    }
    assert(ascii_lowered(ascii_lowered(s)) =~= ascii_lowered(s));
}

proof fn lowered_start(s: Seq<char>)
    ensures
        without_start_space(ascii_lowered(s)) == ascii_lowered(without_start_space(s)),
    decreases s.len(),
{
    if s.len() > 0 {
        lower_keeps_marks(s[0]);
        lowered_start(s.drop_first());
        assert(ascii_lowered(s).drop_first() =~= ascii_lowered(s.drop_first()));
    }
}

proof fn lowered_end(s: Seq<char>)
    ensures
        without_end_space(ascii_lowered(s)) == ascii_lowered(without_end_space(s)),
    decreases s.len(),
{
    if s.len() > 0 {
        lower_keeps_marks(s.last());
        lowered_end(s.drop_last());
        assert(ascii_lowered(s).drop_last() =~= ascii_lowered(s.drop_last()));
    }
}

proof fn lowered_split(s: Seq<char>)
    ensures
        split(ascii_lowered(s), ',') == split(s, ',').map_values(
            |p: Seq<char>| ascii_lowered(p),
        ),
    decreases s.len(),
{
    let lower = |p: Seq<char>| ascii_lowered(p);
    let pieces = split(s, ',');
    if s.len() == 0 {
        assert(ascii_lowered(s) =~= s);
        assert(ascii_lowered(Seq::<char>::empty()) =~= Seq::<char>::empty());
        assert(pieces =~= pieces.map_values(lower));
    } else {
        let init = s.drop_last();
        let before = split(init, ',');
        lower_keeps_marks(s.last());
        lowered_split(init);
        split_then_join(init, ',');
        assert(ascii_lowered(s).drop_last() =~= ascii_lowered(init));
        assert(ascii_lowered(s).last() == ascii_lower(s.last()));
        let lowered = split(ascii_lowered(init), ',');
        if s.last() == ',' {
            assert(ascii_lowered(Seq::<char>::empty()) =~= Seq::<char>::empty());
            assert(lowered.push(Seq::empty()) =~= pieces.map_values(lower));
        } else {
            assert(ascii_lowered(before.last().push(s.last())) =~= ascii_lowered(
                before.last(),
            ).push(ascii_lower(s.last())));
            assert(split(ascii_lowered(s), ',') =~= pieces.map_values(lower));
        }
    }
}

/// Whether ASCII letters are in upper or lower case makes no difference, neither in the filter
/// nor in the name of the channel.
pub proof fn case_is_ignored(filter: Seq<char>, channel_name: Seq<char>)
    ensures
        passes_ascii(ascii_lowered(filter), channel_name) == passes_ascii(filter, channel_name),
        passes_ascii(filter, ascii_lowered(channel_name)) == passes_ascii(filter, channel_name),
{
    let lower = |p: Seq<char>| ascii_lowered(p);
    let patterns = filter_patterns(filter).map_values(lower);
    let lowered = filter_patterns(ascii_lowered(filter)).map_values(lower);
    lowered_split(filter);
    assert forall|i: int| 0 <= i < patterns.len() implies lowered[i] == patterns[i] by {
        let piece = split(filter, ',')[i];
        lowered_start(piece);
        lowered_end(without_start_space(piece));
        lowered_twice(trimmed(piece));
    }
    assert(lowered =~= patterns);
    lowered_twice(channel_name);
}

/// A filtered list holds only devices that pass, and filtering it again changes nothing.
pub proof fn filtered_again(devices: Seq<EmiDeviceView>, filter: Seq<char>)
    ensures
        filtered(filtered(devices, Some(filter)), Some(filter)) == filtered(devices, Some(filter)),
        forall|i: int|
            0 <= i < filtered(devices, Some(filter)).len() ==> passes(
                filter,
                (#[trigger] filtered(devices, Some(filter))[i]).channel_name,
            ),
    decreases devices.len(),
{
    reveal(Seq::filter);
    let kept = filtered(devices, Some(filter));
    if devices.len() > 0 {
        let init = devices.drop_last();
        filtered_again(init, filter);
        if passes(filter, devices.last().channel_name) {
            assert(kept.drop_last() =~= filtered(init, Some(filter)));
        }
    }
}

/// Without the request for all devices only PAC1954 meters are shown.
pub proof fn shown_are_pac(devices: Seq<EmiDeviceView>)
    ensures
        forall|i: int|
            0 <= i < shown(devices, false).len() ==> (#[trigger] shown(devices, false)[i]).is_pac,
        forall|d: EmiDeviceView|
            devices.contains(d) && d.is_pac ==> #[trigger] shown(devices, false).contains(d),
    decreases devices.len(),
{
    reveal(Seq::filter);
    let kept = shown(devices, false);
    if devices.len() > 0 {
        let init = devices.drop_last();
        let before = shown(init, false);
        shown_are_pac(init);
        assert forall|d: EmiDeviceView| devices.contains(d) && d.is_pac implies
            #[trigger] kept.contains(d) by {
            let k = choose|k: int| 0 <= k < devices.len() && devices[k] == d;
            if k < init.len() {
                assert(init[k] == d);
                assert(before.contains(d));
                let j = choose|j: int| 0 <= j < before.len() && before[j] == d;
                assert(kept[j] == d);
            } else {
                assert(kept.last() == d);
            }
        }
    }
}

/// The text at the head of a column of power readings.
pub open spec fn watts_heading(d: EmiDeviceView) -> Seq<char> {
    trimmed(d.channel_name) + "_watts"@
}

/// The head line of comma-separated samples: the time, then one field for each channel.
pub open spec fn csv_header(devices: Seq<EmiDeviceView>) -> Seq<char> {
    join(seq!["timestamp_ms"@] + devices.map_values(|d: EmiDeviceView| watts_heading(d)), ","@)
}

/// A comma-separated sample: the time in milliseconds, then one field for each channel.
pub open spec fn csv_sample(elapsed_ms: nat, watts: Seq<Seq<char>>) -> Seq<char> {
    join(seq![decimal(elapsed_ms)] + watts, ","@)
}

proof fn decimal_without_comma(n: nat)
    ensures
        !decimal(n).contains(','),
{
    decimal_is_digits(n);
}

/// Head line and samples have the same fields: the time, then one for each channel, if no
/// channel name and no reading holds a comma.
pub proof fn csv_fields_line_up(
    devices: Seq<EmiDeviceView>,
    elapsed_ms: nat,
    watts: Seq<Seq<char>>,
)
    requires
        watts.len() == devices.len(),
        forall|i: int|
            0 <= i < devices.len() ==> !watts_heading(#[trigger] devices[i]).contains(','),
        forall|i: int| 0 <= i < watts.len() ==> !(#[trigger] watts[i]).contains(','),
    ensures
        split(csv_header(devices), ',').len() == devices.len() + 1,
        split(csv_sample(elapsed_ms, watts), ',') == seq![decimal(elapsed_ms)] + watts,
        forall|i: int|
            0 <= i < devices.len() ==> #[trigger] split(csv_header(devices), ',')[i + 1]
                == watts_heading(devices[i]),
{
    reveal_strlit(",");
    reveal_strlit("timestamp_ms");
    assert(","@ =~= seq![',']);
    let headings = seq!["timestamp_ms"@] + devices.map_values(
        |d: EmiDeviceView| watts_heading(d),
    );
    assert forall|i: int| 0 <= i < headings.len() implies !(#[trigger] headings[i]).contains(
        ',',
    ) by {
        if i > 0 {
            assert(headings[i] == watts_heading(devices[i - 1]));
        } else {
            assert(headings[i] == "timestamp_ms"@);
        }
    }
    join_then_split(headings, ',');
    let fields = seq![decimal(elapsed_ms)] + watts;
    assert forall|i: int| 0 <= i < fields.len() implies !(#[trigger] fields[i]).contains(',') by {
        if i > 0 {
            assert(fields[i] == watts[i - 1]);
        } else {
            decimal_without_comma(elapsed_ms);
        }
    }
    join_then_split(fields, ',');
}

/// Writes the head line of comma-separated samples.
pub fn csv_header_line(devices: &Vec<EmiDevice>) -> (res: String)
    ensures
        res@ == csv_header(device_views(devices@)),
{
    let ghost headings = device_views(devices@).map_values(|d: EmiDeviceView| watts_heading(d));
    let mut fields: Vec<String> = Vec::new();
    fields.push("timestamp_ms".to_owned());
    assert(texts(fields@) =~= seq!["timestamp_ms"@] + headings.take(0));
    let mut i: usize = 0;
    while i < devices.len()
        invariant
            0 <= i <= devices@.len(),
            headings == device_views(devices@).map_values(|d: EmiDeviceView| watts_heading(d)),
            texts(fields@) == seq!["timestamp_ms"@] + headings.take(i as int),
        decreases devices@.len() - i,
    {
        let ghost before = fields@;
        let mut heading = trim(devices[i].channel_name.as_str());
        heading.append("_watts");
        fields.push(heading);
        proof {
            assert(texts(fields@) =~= texts(before).push(fields@.last()@));
            assert(headings.take(i + 1) =~= headings.take(i as int).push(headings[i as int]));
            assert(texts(fields@) =~= seq!["timestamp_ms"@] + headings.take(i + 1));
        }
        i = i + 1;
    }
    proof {
        assert(headings.take(i as int) =~= headings);
    }
    join_texts(&fields, ",")
}

/// Writes a comma-separated sample.
pub fn csv_sample_line(elapsed_ms: u128, watts: &Vec<String>) -> (res: String)
    ensures
        res@ == csv_sample(elapsed_ms as nat, texts(watts@)),
{
    let mut fields: Vec<String> = Vec::new();
    let mut time = String::new();
    push_decimal(&mut time, elapsed_ms);
    fields.push(time);
    assert(texts(fields@) =~= seq![decimal(elapsed_ms as nat)] + texts(watts@).take(0));
    let mut i: usize = 0;
    while i < watts.len()
        invariant
            0 <= i <= watts@.len(),
            texts(fields@) == seq![decimal(elapsed_ms as nat)] + texts(watts@).take(i as int),
        decreases watts@.len() - i,
    {
        let ghost before = fields@;
        fields.push(watts[i].clone());
        proof {
            assert(texts(fields@) =~= texts(before).push(fields@.last()@));
            assert(texts(fields@) =~= seq![decimal(elapsed_ms as nat)] + texts(watts@).take(i + 1));
        }
        i = i + 1;
    }
    proof {
        assert(texts(watts@).take(i as int) =~= texts(watts@));
    }
    join_texts(&fields, ",")
}

/// The powers between two rounds of measurements, channel by channel.
pub open spec fn powers(now: Seq<EmiMeasurement>, prev: Seq<EmiMeasurement>) -> Seq<
    Option<PowerRatio>,
> {
    Seq::new(now.len(), |i: int| power_between(now[i], prev[i]))
}

/// What to do next in a monitoring.
#[derive(Debug, Clone, Copy, PartialEq, Eq, Structural)]
pub enum MonitorStep {
    /// Take a sample.
    Sample,
    /// Stop.
    Done,
}

/// Whether to stop after a number of samples.
pub open spec fn stops(limit: Option<u64>, taken: nat) -> bool {
    match limit {
        Some(max) => taken >= max,
        None => false,
    }
}

/// The number of samples of a monitoring with a limit: as many as asked for.
pub open spec fn sample_count(limit: u64) -> nat {
    limit as nat
}

/// A monitoring with a limit goes on before it has taken as many samples as asked for and stops
/// when it has; without a limit it never stops.
pub proof fn stops_at_limit(limit: u64, taken: nat)
    ensures
        taken < sample_count(limit) ==> !stops(Some(limit), taken),
        taken == sample_count(limit) ==> stops(Some(limit), taken),
        !stops(None, taken),
{
}

/// A monitoring in progress: the last round of measurements, and how many samples are still to
/// be taken, if there is a limit.
pub struct Monitor {
    prev: Vec<EmiMeasurement>,
    remaining: Option<u64>,
    taken: Ghost<nat>,
    limit: Ghost<Option<u64>>,
}

impl Monitor {
    /// The last round of measurements.
    pub closed spec fn last_round(&self) -> Seq<EmiMeasurement> {
        self.prev@
    }

    /// How many samples were taken.
    pub closed spec fn taken(&self) -> nat {
        self.taken@
    }

    /// How many samples to take.
    pub closed spec fn limit(&self) -> Option<u64> {
        self.limit@
    }

    #[verifier::type_invariant]
    closed spec fn counts_down(&self) -> bool {
        match self.limit@ {
            Some(max) => self.remaining matches Some(left) && self.taken@ + left == max,
            None => self.remaining is None,
        }
    }

    /// Starts with a first round of measurements, which is no sample.
    pub fn new(first: Vec<EmiMeasurement>, count: Option<u64>) -> (res: Monitor)
        ensures
            res.last_round() == first@,
            res.taken() == 0,
            res.limit() == count,
    {
        Monitor { prev: first, remaining: count, taken: Ghost(0nat), limit: Ghost(count) }
    }

    /// Tells what to do next: to stop as soon as as many samples as asked for were taken.
    pub fn step(&self) -> (res: MonitorStep)
        ensures
            res == (if stops(self.limit(), self.taken()) {
                MonitorStep::Done
            } else {
                MonitorStep::Sample
            }),
            self.limit() matches Some(max) ==> self.taken() <= sample_count(max),
            res == MonitorStep::Done ==> (self.limit() matches Some(max) && self.taken()
                == sample_count(max)),
    {
        proof {
            use_type_invariant(self);
        }
        match self.remaining {
            Some(left) => if left == 0 {
                MonitorStep::Done
            } else {
                MonitorStep::Sample
            },
            None => MonitorStep::Sample,
        }
    }

    /// Takes a sample: a new round of measurements, one for each channel. Gives the powers
    /// since the round before.
    pub fn sampled(self, now: Vec<EmiMeasurement>) -> (res: (Vec<Option<PowerRatio>>, Monitor))
        requires
            now@.len() == self.last_round().len(),
            !stops(self.limit(), self.taken()),
        ensures
            res.0@ == powers(now@, self.last_round()),
            res.0@.len() == now@.len(),
            forall|i: int|
                0 <= i < now@.len() ==> leads_on(
                    self.last_round()[i],
                    #[trigger] now@[i],
                    res.0@[i],
                ),
            res.1.last_round() == now@,
            res.1.taken() == self.taken() + 1,
            res.1.limit() == self.limit(),
    {
        proof {
            use_type_invariant(&self);
        }
        let mut ratios: Vec<Option<PowerRatio>> = Vec::new();
        let mut i: usize = 0;
        while i < now.len()
            invariant
                0 <= i <= now@.len() == self.prev@.len(),
                ratios@ == powers(now@, self.prev@).take(i as int),
            decreases now@.len() - i,
        {
            ratios.push(now[i].power_watts(&self.prev[i]));
            assert(ratios@ =~= powers(now@, self.prev@).take(i + 1));
            i = i + 1;
        }
        assert(powers(now@, self.prev@).take(i as int) =~= powers(now@, self.prev@));
        proof {
            assert forall|i: int| 0 <= i < now@.len() implies leads_on(
                self.prev@[i],
                #[trigger] now@[i],
                ratios@[i],
            ) by {
                channels_keep_their_own_readings(now@, self.prev@, i);
            }
        }
        let remaining = match self.remaining {
            Some(left) => Some(left - 1),
            None => None,
        };
        let next = Monitor {
            prev: now,
            remaining,
            taken: Ghost(self.taken@ + 1),
            limit: self.limit,
        };
        (ratios, next)
    }
}

/// The line that says what is monitored.
pub open spec fn banner(channels: nat, interval_ms: nat) -> Seq<char> {
    "Monitoring "@ + decimal(channels) + " channel(s) every "@ + decimal(interval_ms)
        + "ms. Press Ctrl+C to stop."@
}

/// Says what is monitored.
pub fn banner_line(channels: usize, interval_ms: u64) -> (res: String)
    ensures
        res@ == banner(channels as nat, interval_ms as nat),
{
    let mut out: String = "Monitoring ".to_owned();
    push_decimal(&mut out, channels as u128);
    out.append(" channel(s) every ");
    push_decimal(&mut out, interval_ms as u128);
    out.append("ms. Press Ctrl+C to stop.");
    out
}

/// The lines at the start of a monitoring of these devices.
pub open spec fn start_block(devices: Seq<EmiDeviceView>, csv: bool, interval_ms: nat) -> Seq<
    Seq<char>,
> {
    if devices.len() == 0 {
        seq!["No matching EMI devices found."@]
    } else if csv {
        seq![csv_header(devices)]
    } else {
        seq![banner(devices.len(), interval_ms), Seq::empty()]
    }
}

/// Writes the lines at the start of a monitoring: the head line of comma-separated samples, or
/// what is monitored, or that there is nothing to monitor.
pub fn start_lines(devices: &Vec<EmiDevice>, csv: bool, interval_ms: u64) -> (res: Vec<String>)
    ensures
        texts(res@) == start_block(device_views(devices@), csv, interval_ms as nat),
{
    let mut lines: Vec<String> = Vec::new();
    if devices.len() == 0 {
        lines.push("No matching EMI devices found.".to_owned());
    } else if csv {
        lines.push(csv_header_line(devices));
    } else {
        lines.push(banner_line(devices.len(), interval_ms));
        lines.push(String::new());
    }
    assert(texts(lines@) =~= start_block(device_views(devices@), csv, interval_ms as nat));
    lines
}

/// The line with the power of a channel, in watts.
pub open spec fn power_row(name: Seq<char>, watts: Seq<char>) -> Seq<char> {
    "  "@ + left_aligned(name, 35) + " "@ + right_aligned(watts, 8) + " W"@
}

/// Writes the line with the power of a channel.
pub fn power_line(name: &str, watts: &str) -> (res: String)
    ensures
        res@ == power_row(name@, watts@),
{
    let mut out: String = "  ".to_owned();
    push_left_aligned(&mut out, name, 35);
    out.append(" ");
    push_right_aligned(&mut out, watts, 8);
    out.append(" W");
    out
}

/// The lines of a sample: the time in seconds, the channels, their total if there are several,
/// and an empty line.
pub open spec fn sample_block(
    seconds: Seq<char>,
    devices: Seq<EmiDeviceView>,
    watts: Seq<Seq<char>>,
    total: Seq<char>,
) -> Seq<Seq<char>> {
    seq!["["@ + seconds + "s]"@] + Seq::new(
        devices.len(),
        |i: int| power_row(trimmed(devices[i].channel_name), watts[i]),
    ) + (if devices.len() > 1 {
        seq![power_row("TOTAL"@, total)]
    } else {
        Seq::empty()
    }) + seq![Seq::empty()]
}

/// Writes the lines of a sample.
pub fn sample_lines(
    seconds: &str,
    devices: &Vec<EmiDevice>,
    watts: &Vec<String>,
    total: &str,
) -> (res: Vec<String>)
    requires
        watts@.len() == devices@.len(),
    ensures
        texts(res@) == sample_block(seconds@, device_views(devices@), texts(watts@), total@),
{
    let ghost rows = Seq::new(
        devices@.len(),
        |i: int| power_row(trimmed(device_views(devices@)[i].channel_name), texts(watts@)[i]),
    );
    let mut lines: Vec<String> = Vec::new();
    let mut head: String = "[".to_owned();
    head.append(seconds);
    head.append("s]");
    let ghost head_text = head@;
    lines.push(head);
    assert(texts(lines@) =~= seq![head_text] + rows.take(0));
    let mut i: usize = 0;
    while i < devices.len()
        invariant
            0 <= i <= devices@.len() == watts@.len(),
            rows == Seq::new(
                devices@.len(),
                |i: int|
                    power_row(trimmed(device_views(devices@)[i].channel_name), texts(watts@)[i]),
            ),
            texts(lines@) == seq![head_text] + rows.take(i as int),
        decreases devices@.len() - i,
    {
        let ghost before = lines@;
        let name = trim(devices[i].channel_name.as_str());
        lines.push(power_line(name.as_str(), watts[i].as_str()));
        proof {
            assert(texts(lines@) =~= texts(before).push(lines@.last()@));
            assert(rows.take(i + 1) =~= rows.take(i as int).push(rows[i as int]));
            assert(texts(lines@) =~= seq![head_text] + rows.take(i + 1));
        }
        i = i + 1;
    }
    assert(rows.take(i as int) =~= rows);
    if devices.len() > 1 {
        let ghost before = lines@;
        lines.push(power_line("TOTAL", total));
        assert(texts(lines@) =~= texts(before).push(power_row("TOTAL"@, total@)));
    }
    let ghost before = lines@;
    lines.push(String::new());
    assert(texts(lines@) =~= texts(before).push(Seq::empty()));
    assert(texts(lines@) =~= sample_block(
        seconds@,
        device_views(devices@),
        texts(watts@),
        total@,
    ));
    lines
}

/// Whether a power leads from one measurement to another: their counters differ by its energy
/// and its time, and there is none exactly where no time has passed.
pub open spec fn leads_on(
    prev: EmiMeasurement,
    now: EmiMeasurement,
    power: Option<PowerRatio>,
) -> bool {
    match power {
        Some(ratio) => {
            &&& now.time_100ns != prev.time_100ns
            &&& (prev.energy_pwh + ratio.energy_pwh) % 0x1_0000_0000_0000_0000 == now.energy_pwh
            &&& (prev.time_100ns + ratio.time_100ns) % 0x1_0000_0000_0000_0000 == now.time_100ns
        },
        None => now.time_100ns == prev.time_100ns,
    }
}

/// There is a power for each channel, and it leads from the channel's own last measurement to
/// its new one.
pub proof fn channels_keep_their_own_readings(
    now: Seq<EmiMeasurement>,
    prev: Seq<EmiMeasurement>,
    i: int,
)
    requires
        0 <= i < now.len(),
    ensures
        powers(now, prev).len() == now.len(),
        leads_on(prev[i], now[i], powers(now, prev)[i]),
{
    powers_lead_on(now[i], prev[i]);
}

proof fn filter_concat(
    a: Seq<EmiDeviceView>,
    b: Seq<EmiDeviceView>,
    keep: spec_fn(EmiDeviceView) -> bool,
)
    ensures
        (a + b).filter(keep) == a.filter(keep) + b.filter(keep),
    decreases b.len(),
{
    reveal(Seq::filter);
    if b.len() == 0 {
        assert(a + b =~= a);
        assert(a.filter(keep) + b.filter(keep) =~= a.filter(keep));
    } else {
        let init = b.drop_last();
        filter_concat(a, init, keep);
        assert((a + b).drop_last() =~= a + init);
        assert((a + b).last() == b.last());
        assert((a + b).filter(keep) =~= a.filter(keep) + b.filter(keep));
    }
}

proof fn filter_one(d: EmiDeviceView, keep: spec_fn(EmiDeviceView) -> bool)
    ensures
        seq![d].filter(keep) == if keep(d) {
            seq![d]
        } else {
            Seq::empty()
        },
        Seq::<EmiDeviceView>::empty().filter(keep) == Seq::<EmiDeviceView>::empty(),
{
    reveal(Seq::filter);
    assert(seq![d].drop_last() =~= Seq::<EmiDeviceView>::empty());
    assert(seq![d].drop_last().filter(keep) =~= Seq::<EmiDeviceView>::empty());
    assert(seq![d].filter(keep) =~= if keep(d) {
        seq![d]
    } else {
        Seq::empty()
    });
}

/// Each device is shown or not for itself, in its place: all with the request for all devices,
/// otherwise those that are PAC1954 meters.
pub proof fn devices_are_shown_one_by_one(
    a: Seq<EmiDeviceView>,
    d: EmiDeviceView,
    b: Seq<EmiDeviceView>,
)
    ensures
        shown(a + seq![d] + b, true) == a + seq![d] + b,
        shown(a + seq![d] + b, false) == if d.is_pac {
            shown(a, false) + seq![d] + shown(b, false)
        } else {
            shown(a, false) + shown(b, false)
        },
        shown(Seq::empty(), false) == Seq::<EmiDeviceView>::empty(),
{
    let keep = |d: EmiDeviceView| d.is_pac;
    filter_concat(a + seq![d], b, keep);
    filter_concat(a, seq![d], keep);
    filter_one(d, keep);
    assert(shown(a, false) + Seq::<EmiDeviceView>::empty() =~= shown(a, false));
}

/// Each device passes a filter or not for itself, in its place; without a filter all do.
pub proof fn devices_are_filtered_one_by_one(
    a: Seq<EmiDeviceView>,
    d: EmiDeviceView,
    b: Seq<EmiDeviceView>,
    filter: Seq<char>,
)
    ensures
        filtered(a + seq![d] + b, None) == a + seq![d] + b,
        filtered(a + seq![d] + b, Some(filter)) == if passes(filter, d.channel_name) {
            filtered(a, Some(filter)) + seq![d] + filtered(b, Some(filter))
        } else {
            filtered(a, Some(filter)) + filtered(b, Some(filter))
        },
        filtered(Seq::empty(), Some(filter)) == Seq::<EmiDeviceView>::empty(),
{
    let keep = |d: EmiDeviceView| passes(filter, d.channel_name);
    filter_concat(a + seq![d], b, keep);
    filter_concat(a, seq![d], keep);
    filter_one(d, keep);
    assert(filtered(a, Some(filter)) + Seq::<EmiDeviceView>::empty() =~= filtered(a, Some(filter)));
}

/// A channel passes a filter without commas if and only if its name is the filter, without the
/// white space around it, with something before and behind it, both in lowercase.
pub proof fn single_patterns_occur(pattern: Seq<char>, channel_name: Seq<char>)
    requires
        !pattern.contains(','),
    ensures
        passes(pattern, channel_name) <==> exists|before: Seq<char>, after: Seq<char>|
            lowercase(channel_name) == #[trigger] (before + lowercase(trimmed(pattern)) + after),
        passes_ascii(pattern, channel_name) <==> exists|before: Seq<char>, after: Seq<char>|
            ascii_lowered(channel_name) == #[trigger] (before + ascii_lowered(trimmed(pattern))
                + after),
{
    assert(join(seq![pattern], seq![',']) == pattern);
    join_then_split(seq![pattern], ',');
    assert(split(pattern, ',') == seq![pattern]);
    assert(filter_patterns(pattern) =~= seq![trimmed(pattern)]);
    let lower = filter_patterns(pattern).map_values(|p: Seq<char>| lowercase(p));
    assert(lower =~= seq![lowercase(trimmed(pattern))]);
    let ascii = filter_patterns(pattern).map_values(|p: Seq<char>| ascii_lowered(p));
    assert(ascii =~= seq![ascii_lowered(trimmed(pattern))]);
    occurs_between(lower[0], lowercase(channel_name));
    occurs_between(ascii[0], ascii_lowered(channel_name));
    assert(any_occurs(lower, lowercase(channel_name)) <==> occurs(
        lower[0],
        lowercase(channel_name),
    ));
    assert(any_occurs(ascii, ascii_lowered(channel_name)) <==> occurs(
        ascii[0],
        ascii_lowered(channel_name),
    ));
}

/// The fields of comma-separated samples read back: the head line names the time and then each
/// channel, trimmed and with its unit; a sample has the milliseconds in decimal and then each
/// reading as it stands.
pub proof fn csv_fields_read_back(
    devices: Seq<EmiDeviceView>,
    elapsed_ms: nat,
    watts: Seq<Seq<char>>,
    i: int,
)
    requires
        watts.len() == devices.len(),
        0 <= i < devices.len(),
        forall|i: int|
            0 <= i < devices.len() ==> !trimmed(#[trigger] devices[i].channel_name).contains(','),
        forall|i: int| 0 <= i < watts.len() ==> !(#[trigger] watts[i]).contains(','),
    ensures
        split(csv_header(devices), ',').len() == devices.len() + 1,
        split(csv_header(devices), ',')[0] == "timestamp_ms"@,
        split(csv_header(devices), ',')[i + 1] == trimmed(devices[i].channel_name) + "_watts"@,
        split(csv_sample(elapsed_ms, watts), ',').len() == watts.len() + 1,
        is_numeral(split(csv_sample(elapsed_ms, watts), ',')[0]),
        numeral_value(split(csv_sample(elapsed_ms, watts), ',')[0]) == elapsed_ms,
        split(csv_sample(elapsed_ms, watts), ',')[i + 1] == watts[i],
{
    reveal_strlit("_watts");
    assert forall|i: int| 0 <= i < devices.len() implies !watts_heading(
        #[trigger] devices[i],
    ).contains(',') by {
        let name = trimmed(devices[i].channel_name);
        let heading = watts_heading(devices[i]);
        assert(!name.contains(','));
        if heading.contains(',') {
            let k = choose|k: int| 0 <= k < heading.len() && heading[k] == ',';
            if k < name.len() {
                assert(name[k] == ',');
            } else {
                assert(heading[k] == "_watts"@[k - name.len()]);
            }
        }
    }
    csv_fields_line_up(devices, elapsed_ms, watts);
    decimal_reads_back(elapsed_ms);
    assert(split(csv_header(devices), ',')[i + 1] == watts_heading(devices[i]));
    reveal_strlit(",");
    reveal_strlit("timestamp_ms");
    assert(","@ =~= seq![',']);
    let headings = seq!["timestamp_ms"@] + devices.map_values(
        |d: EmiDeviceView| watts_heading(d),
    );
    assert forall|i: int| 0 <= i < headings.len() implies !(#[trigger] headings[i]).contains(
        ',',
    ) by {
        if i > 0 {
            assert(headings[i] == watts_heading(devices[i - 1]));
        } else {
            assert(headings[i] == "timestamp_ms"@);
        }
    }
    join_then_split(headings, ',');
}

/// The numbers of the banner read back.
pub proof fn banner_reads_back(channels: nat, interval_ms: nat)
    ensures
        exists|a: Seq<char>, b: Seq<char>|
            is_numeral(a) && numeral_value(a) == channels && is_numeral(b) && numeral_value(b)
                == interval_ms && banner(channels, interval_ms) == #[trigger] ("Monitoring "@ + a
                + " channel(s) every "@ + b + "ms. Press Ctrl+C to stop."@),
{
    decimal_reads_back(channels);
    decimal_reads_back(interval_ms);
    let a = decimal(channels);
    let b = decimal(interval_ms);
    assert(banner(channels, interval_ms) == ("Monitoring "@ + a + " channel(s) every "@ + b
        + "ms. Press Ctrl+C to stop."@));
}

/// A monitoring of any devices starts with the head line of their samples, or with a banner that
/// counts them all and an empty line.
pub proof fn monitoring_starts(devices: Seq<EmiDeviceView>, csv: bool, interval_ms: nat)
    ensures
        devices.len() == 0 ==> start_block(devices, csv, interval_ms).len() == 1,
        devices.len() > 0 && csv ==> start_block(devices, csv, interval_ms) == seq![
            csv_header(devices),
        ],
        devices.len() > 0 && !csv ==> start_block(devices, csv, interval_ms) == seq![
            banner(devices.len(), interval_ms),
            Seq::empty(),
        ],
{
}

/// The line of a channel reads back: behind two spaces its name, whatever its length, and before
/// the unit its reading.
pub proof fn power_row_reads_back(name: Seq<char>, watts: Seq<char>)
    ensures
        ({
            let row = power_row(name, watts);
            let reading = row.take(row.len() - 2);
            &&& row == "  "@ + name + gap(name.len(), 35) + right_aligned(watts, 8) + " W"@
            &&& row.len() >= 4 + name.len() + watts.len()
            &&& row[0] == ' ' && row[1] == ' '
            &&& row.subrange(2, 2int + name.len()) == name
            &&& row[row.len() - 2] == ' ' && row.last() == 'W'
            &&& !watts.contains(' ') ==> last_field(reading) == watts && before_last_field(reading)
                == without_end_blanks("  "@ + name)
        }),
{
    reveal_strlit("  ");
    reveal_strlit(" ");
    reveal_strlit(" W");
    let row = power_row(name, watts);
    let reading = row.take(row.len() - 2);
    let lead = "  "@ + left_aligned(name, 35);
    assert(" "@ =~= seq![' ']);
    assert(reading =~= lead + seq![' '] + right_aligned(watts, 8));
    if !watts.contains(' ') {
        right_aligned_reads_back(lead, watts, 8);
    }
    left_aligned_gap(name, 35);
    assert(row =~= "  "@ + (left_aligned(name, 35) + seq![' ']) + right_aligned(watts, 8) + " W"@);
    assert(row =~= "  "@ + name + gap(name.len(), 35) + right_aligned(watts, 8) + " W"@);
    let n = fill(name, 35).len();
    assert(lead =~= ("  "@ + name) + repeated(' ', n));
    blanks_at_end("  "@ + name, n);
    aligned_texts(name, 35);
    aligned_texts(watts, 8);
    assert(row.subrange(2, 2int + name.len()) =~= name);
}

/// The lines of a sample are those of its channels in their order, each with its own name and
/// reading, between the time and an empty line; several channels have a total.
pub proof fn sample_lines_in_order(
    seconds: Seq<char>,
    devices: Seq<EmiDeviceView>,
    watts: Seq<Seq<char>>,
    total: Seq<char>,
    i: int,
)
    requires
        0 <= i < devices.len(),
    ensures
        ({
            let lines = sample_block(seconds, devices, watts, total);
            let n = devices.len();
            &&& lines.len() == if n > 1 {
                n + 3
            } else {
                n + 2
            }
            &&& lines[0] == "["@ + seconds + "s]"@
            &&& lines[i + 1] == power_row(trimmed(devices[i].channel_name), watts[i])
            &&& n > 1 ==> lines[n as int + 1] == power_row("TOTAL"@, total)
            &&& lines.last() == Seq::<char>::empty()
        }),
{
}

/// Head line and samples grow by one field for each channel, whatever the field holds.
pub proof fn csv_lines_grow(
    devices: Seq<EmiDeviceView>,
    d: EmiDeviceView,
    elapsed_ms: nat,
    watts: Seq<Seq<char>>,
    reading: Seq<char>,
)
    ensures
        csv_header(Seq::empty()) == "timestamp_ms"@,
        csv_header(devices.push(d)) == csv_header(devices) + seq![','] + trimmed(d.channel_name)
            + "_watts"@,
        is_numeral(csv_sample(elapsed_ms, Seq::empty())),
        numeral_value(csv_sample(elapsed_ms, Seq::empty())) == elapsed_ms,
        csv_sample(elapsed_ms, watts.push(reading)) == csv_sample(elapsed_ms, watts) + seq![',']
            + reading,
{
    reveal_strlit(",");
    assert(","@ =~= seq![',']);
    let heading = |d: EmiDeviceView| watts_heading(d);
    let none = Seq::<EmiDeviceView>::empty();
    let fields = seq!["timestamp_ms"@] + devices.map_values(heading);
    assert(seq!["timestamp_ms"@] + none.map_values(heading) =~= seq!["timestamp_ms"@]);
    assert(seq!["timestamp_ms"@] + devices.push(d).map_values(heading) =~= fields.push(heading(d)));
    joined_one_by_one(fields, heading(d), ","@);
    assert(csv_header(devices.push(d)) =~= csv_header(devices) + seq![','] + trimmed(
        d.channel_name,
    ) + "_watts"@);
    decimal_reads_back(elapsed_ms);
    let time = decimal(elapsed_ms);
    assert(seq![time] + Seq::<Seq<char>>::empty() =~= seq![time]);
    assert(seq![time] + watts.push(reading) =~= (seq![time] + watts).push(reading));
    joined_one_by_one(seq![time] + watts, reading, ","@);
}

} // verus!
