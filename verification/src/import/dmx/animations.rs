//! The animations of a document: clips, their channels and their keys.

use crate::import::{Animation, Bone, Channel};
use crate::import::dmx::{DmxChannel, DmxDocument, DmxElement, DmxFault, DmxValue, ParseDMXError};
use crate::import::dmx::attributes::{
    element_of, elements_of, find_value, integer_of, integers_of, kind_name, missing, missing_fault,
    numbers_of, optional_element, require_element, require_elements, require_integer,
    require_integers, require_numbers, require_text, text_equals, text_of, value_of, NumberKind,
};
use crate::import::dmx::frames::{
    clip_frame_count, frame_as_index, frame_count_of, frame_index, frame_of, keys_entered,
    load_keys, time_frame,
};
use crate::names::NameMap;
use crate::ordered::{index_set_insert_full, index_set_items, index_set_new};
use vstd::prelude::*;

verus! {

/// A time attribute in ticks: an integer under the old name before format
/// version 2, a time under the new name from then on.
pub open spec fn ticks_of(
    element: DmxElement,
    version: i32,
    old_name: Seq<char>,
    new_name: Seq<char>,
) -> Option<i32> {
    if version < 2 {
        integer_of(element, old_name)
    } else {
        match value_of(element, new_name) {
            Some(DmxValue::Time(ticks)) => Some(ticks),
            _ => None,
        }
    }
}

/// A time attribute in ticks: an integer before format version 2, a time
/// from then on.
fn optional_ticks(element: &DmxElement, version: i32, old_name: &str, new_name: &str) -> (ticks:
    Option<i32>)
    ensures
        ticks == ticks_of(*element, version, old_name@, new_name@),
{
    if version < 2 {
        match find_value(element, old_name) {
            Some(DmxValue::Integer(ticks)) => Some(*ticks),
            _ => None,
        }
    } else {
        match find_value(element, new_name) {
            Some(DmxValue::Time(ticks)) => Some(*ticks),
            _ => None,
        }
    }
}

/// The times of a layer in ticks: integers before format version 2, times
/// from then on.
pub open spec fn times_of(layer: DmxElement, version: i32) -> Result<Seq<i32>, DmxFault> {
    if version < 2 {
        match integers_of(layer, "times"@) {
            Some(times) => Ok(times),
            None => Err(missing_fault(layer, "times"@, "IntegerArray"@)),
        }
    } else {
        match value_of(layer, "times"@) {
            Some(DmxValue::TimeArray(times)) => Ok(times@),
            _ => Err(missing_fault(layer, "times"@, "TimeArray"@)),
        }
    }
}

/// The times of a layer in ticks.
fn require_times<'a>(layer: &'a DmxElement, version: i32) -> (times: Result<
    &'a Vec<i32>,
    ParseDMXError,
>)
    ensures
        match times {
            Ok(found) => times_of(*layer, version) == Ok::<Seq<i32>, DmxFault>(found@),
            Err(error) => times_of(*layer, version) == Err::<Seq<i32>, DmxFault>(error@),
        },
{
    if version < 2 {
        require_integers(layer, "times")
    } else {
        match find_value(layer, "times") {
            Some(DmxValue::TimeArray(times)) => Ok(times),
            _ => Err(missing(layer, "times", "TimeArray")),
        }
    }
}

/// Whether each channel has one source for each of its keys.
pub open spec fn channels_aligned(channels: Seq<Channel>, sources: Seq<DmxChannel>) -> bool {
    &&& sources.len() == channels.len()
    &&& forall|c: int|
        0 <= c < channels.len() ==> (#[trigger] sources[c]).location@.len() == index_set_items(
            channels[c].location,
        ).len() && sources[c].rotation@.len() == index_set_items(channels[c].rotation).len()
}

/// The keys that a channel of a clip asks for: for which bone, whether of
/// its rotation or of its location, and from which layer with which times.
pub struct ChannelKeys {
    pub bone: usize,
    pub rotation: bool,
    /// The element of the layer.
    pub layer: usize,
    pub times: Seq<i32>,
}

/// What a channel asks for. It has a target, an attribute, and a log with
/// layers, of which `toIndex` chooses one (the first without it). Nothing
/// is asked for where the attribute is neither "orientation" nor
/// "position", or where no layer is chosen. The layer has as many values
/// as times, and the target has the name of a bone.
pub open spec fn channel_keys(
    document: DmxDocument,
    channel: DmxElement,
    bones: Seq<Seq<char>>,
    version: i32,
) -> Result<Option<ChannelKeys>, DmxFault> {
    if element_of(document, channel, "toElement"@) is None {
        Err(missing_fault(channel, "toElement"@, "Element"@))
    } else if text_of(channel, "toAttribute"@) is None {
        Err(missing_fault(channel, "toAttribute"@, "String"@))
    } else if element_of(document, channel, "log"@) is None {
        Err(missing_fault(channel, "log"@, "Element"@))
    } else {
        let target = document.elements@[element_of(document, channel, "toElement"@)->Some_0 as int];
        let attribute = text_of(channel, "toAttribute"@)->Some_0;
        let log = document.elements@[element_of(document, channel, "log"@)->Some_0 as int];
        match elements_of(log, "layers"@) {
            None => Err(missing_fault(log, "layers"@, "ElementArray"@)),
            Some(layers) => {
                let chosen = match integer_of(channel, "toIndex"@) {
                    Some(chosen) => chosen,
                    None => 0i32,
                };
                let rotation = attribute == "orientation"@;
                let location = attribute == "position"@;
                if 0 <= chosen < layers.len() && (rotation || location) {
                    match layers[chosen as int] {
                        Some(index) => if index < document.elements@.len() {
                            layer_keys(
                                document.elements@[index as int],
                                index,
                                channel,
                                target,
                                rotation,
                                bones,
                                version,
                            )
                        } else {
                            Ok(None)
                        },
                        None => Ok(None),
                    }
                } else {
                    Ok(None)
                }
            },
        }
    }
}

/// The keys of the layer that a channel chooses.
pub open spec fn layer_keys(
    layer: DmxElement,
    index: usize,
    channel: DmxElement,
    target: DmxElement,
    rotation: bool,
    bones: Seq<Seq<char>>,
    version: i32,
) -> Result<Option<ChannelKeys>, DmxFault> {
    let kind = if rotation {
        NumberKind::QuaternionArray
    } else {
        NumberKind::Vector3Array
    };
    match times_of(layer, version) {
        Err(fault) => Err(fault),
        Ok(times) => match numbers_of(layer, "values"@, kind) {
            None => Err(missing_fault(layer, "values"@, kind_name(kind))),
            Some(values) => if values != times.len() {
                Err(DmxFault::ArrayLengthMismatch("times"@, "values"@, layer.id))
            } else if !bones.contains(target.name@) {
                Err(DmxFault::InvalidAnimationJointTarget(channel.id, target.id))
            } else {
                Ok(
                    Some(
                        ChannelKeys {
                            bone: bones.index_of(target.name@) as usize,
                            rotation,
                            layer: index,
                            times,
                        },
                    ),
                )
            },
        },
    }
}

/// What a channel asks for.
fn load_channel_keys<'a>(
    document: &'a DmxDocument,
    channel: &DmxElement,
    skeleton: &NameMap<Bone>,
    version: i32,
) -> (loaded: Result<Option<(usize, bool, usize, &'a Vec<i32>)>, ParseDMXError>)
    ensures
        match loaded {
            Ok(Some(keys)) => channel_keys(*document, *channel, skeleton.names(), version) == Ok::<
                Option<ChannelKeys>,
                DmxFault,
            >(Some(ChannelKeys { bone: keys.0, rotation: keys.1, layer: keys.2, times: keys.3@ })),
            Ok(None) => channel_keys(*document, *channel, skeleton.names(), version) == Ok::<
                Option<ChannelKeys>,
                DmxFault,
            >(None),
            Err(error) => channel_keys(*document, *channel, skeleton.names(), version) == Err::<
                Option<ChannelKeys>,
                DmxFault,
            >(error@),
        },
{
    let target = require_element(document, channel, "toElement")?;
    let attribute = require_text(channel, "toAttribute")?;
    let log = require_element(document, channel, "log")?;
    let layers = require_elements(&document.elements[log], "layers")?;
    let chosen: i32 = match find_value(channel, "toIndex") {
        Some(DmxValue::Integer(chosen)) => *chosen,
        _ => 0,
    };
    let rotation: bool = text_equals(attribute.as_str(), "orientation");
    let location: bool = text_equals(attribute.as_str(), "position");
    if chosen >= 0 && (chosen as usize) < layers.len() && (rotation || location) {
        match layers[chosen as usize] {
            Some(layer_index) => {
                if layer_index < document.elements.len() {
                    let layer = &document.elements[layer_index];
                    let times = require_times(layer, version)?;
                    let values = if rotation {
                        require_numbers(layer, "values", NumberKind::QuaternionArray)?
                    } else {
                        require_numbers(layer, "values", NumberKind::Vector3Array)?
                    };
                    if values != times.len() {
                        return Err(
                            ParseDMXError::ArrayLengthMismatch(
                                "times".to_owned(),
                                "values".to_owned(),
                                layer.id,
                            ),
                        );
                    }
                    let joint = &document.elements[target];
                    let bone = match skeleton.get_index_of(joint.name.as_str()) {
                        Some(bone) => bone,
                        None => {
                            return Err(
                                ParseDMXError::InvalidAnimationJointTarget(channel.id, joint.id),
                            );
                        },
                    };
                    proof {
                        let found = skeleton.names().index_of(joint.name@);
                        assert(skeleton.names()[found] == joint.name@);
                    }
                    Ok(Some((bone, rotation, layer_index, times)))
                } else {
                    Ok(None)
                }
            },
            None => Ok(None),
        }
    } else {
        Ok(None)
    }
}

/// The keys of one bone in a clip: the frames at which its location and
/// its rotation are keyed, and for each key the layer element and the
/// entry of its value.
pub struct ChannelModel {
    pub location: Seq<usize>,
    pub rotation: Seq<usize>,
    pub location_sources: Seq<(usize, usize)>,
    pub rotation_sources: Seq<(usize, usize)>,
}

/// What a clip comes to.
pub struct ClipModel {
    pub frame_count: usize,
    /// The bones that have a channel.
    pub bones: Seq<usize>,
    /// For each of `bones` its keys.
    pub channels: Seq<ChannelModel>,
}

/// A channel without keys.
pub open spec fn no_keys() -> ChannelModel {
    ChannelModel {
        location: Seq::empty(),
        rotation: Seq::empty(),
        location_sources: Seq::empty(),
        rotation_sources: Seq::empty(),
    }
}

/// The channel with the keys of a layer entered.
pub open spec fn channel_with_keys(
    channel: ChannelModel,
    keys: ChannelKeys,
    rate: int,
    start_frame: usize,
    frame_count: usize,
) -> ChannelModel {
    if keys.rotation {
        let entered = keys_entered(
            channel.rotation,
            channel.rotation_sources,
            keys.layer,
            keys.times,
            rate,
            start_frame,
            frame_count,
            keys.times.len() as int,
        );
        ChannelModel {
            location: channel.location,
            rotation: entered.0,
            location_sources: channel.location_sources,
            rotation_sources: entered.1,
        }
    } else {
        let entered = keys_entered(
            channel.location,
            channel.location_sources,
            keys.layer,
            keys.times,
            rate,
            start_frame,
            frame_count,
            keys.times.len() as int,
        );
        ChannelModel {
            location: entered.0,
            rotation: channel.rotation,
            location_sources: entered.1,
            rotation_sources: channel.rotation_sources,
        }
    }
}

/// The clip with the keys of a channel entered: under the channel of the
/// bone, which is added at the end where the bone had none.
pub open spec fn channel_entered(clip: ClipModel, keys: ChannelKeys, rate: int, start_frame: usize) -> ClipModel {
    let fresh = !clip.bones.contains(keys.bone);
    let bones = if fresh {
        clip.bones.push(keys.bone)
    } else {
        clip.bones
    };
    let channels = if fresh {
        clip.channels.push(no_keys())
    } else {
        clip.channels
    };
    let slot = bones.index_of(keys.bone);
    ClipModel {
        frame_count: clip.frame_count,
        bones,
        channels: channels.update(
            slot,
            channel_with_keys(channels[slot], keys, rate, start_frame, clip.frame_count),
        ),
    }
}

/// The clip after the first `count` of its channels. Null references and
/// references out of the document are passed over.
pub open spec fn channels_loaded(
    document: DmxDocument,
    channels: Seq<Option<usize>>,
    bones: Seq<Seq<char>>,
    version: i32,
    rate: int,
    start_frame: usize,
    start: ClipModel,
    count: int,
) -> Result<ClipModel, DmxFault>
    decreases count,
{
    if count <= 0 {
        Ok(start)
    } else {
        match channels_loaded(
            document,
            channels,
            bones,
            version,
            rate,
            start_frame,
            start,
            count - 1,
        ) {
            Err(fault) => Err(fault),
            Ok(clip) => match channels[count - 1] {
                Some(index) => if index < document.elements@.len() {
                    match channel_keys(document, document.elements@[index as int], bones, version) {
                        Err(fault) => Err(fault),
                        Ok(Some(keys)) => Ok(channel_entered(clip, keys, rate, start_frame)),
                        Ok(None) => Ok(clip),
                    }
                } else {
                    Ok(clip)
                },
                None => Ok(clip),
            },
        }
    }
}

/// Once a channel is at fault, the fault stays whatever follows.
pub proof fn lemma_channels_failed(
    document: DmxDocument,
    channels: Seq<Option<usize>>,
    bones: Seq<Seq<char>>,
    version: i32,
    rate: int,
    start_frame: usize,
    start: ClipModel,
    failed: int,
    count: int,
)
    requires
        failed <= count,
        channels_loaded(document, channels, bones, version, rate, start_frame, start, failed) is Err,
    ensures
        channels_loaded(document, channels, bones, version, rate, start_frame, start, count)
            == channels_loaded(
            document,
            channels,
            bones,
            version,
            rate,
            start_frame,
            start,
            failed,
        ),
    decreases count - failed,
{
    if failed < count {
        lemma_channels_failed(
            document,
            channels,
            bones,
            version,
            rate,
            start_frame,
            start,
            failed,
            count - 1,
        );
    }
}

/// The fault of a time frame without a duration.
pub open spec fn duration_fault(frame: DmxElement, version: i32) -> DmxFault {
    if version < 2 {
        missing_fault(frame, "durationTime"@, "Integer"@)
    } else {
        missing_fault(frame, "duration"@, "Time"@)
    }
}

/// What a clip comes to: its frames are counted from its time frame at its
/// frame rate (a time frame without a start starts at zero), and its
/// channels are entered in their order.
pub open spec fn clip_of(document: DmxDocument, clip: DmxElement, bones: Seq<Seq<char>>, version: i32) -> Result<
    ClipModel,
    DmxFault,
> {
    match integer_of(clip, "frameRate"@) {
        None => Err(missing_fault(clip, "frameRate"@, "Integer"@)),
        Some(rate) => match element_of(document, clip, "timeFrame"@) {
            None => Err(missing_fault(clip, "timeFrame"@, "Element"@)),
            Some(index) => {
                let frame = document.elements@[index as int];
                let start = match ticks_of(frame, version, "startTime"@, "start"@) {
                    Some(ticks) => ticks,
                    None => 0i32,
                };
                match ticks_of(frame, version, "durationTime"@, "duration"@) {
                    None => Err(duration_fault(frame, version)),
                    Some(duration) => match elements_of(clip, "channels"@) {
                        None => Err(missing_fault(clip, "channels"@, "ElementArray"@)),
                        Some(channels) => channels_loaded(
                            document,
                            channels,
                            bones,
                            version,
                            rate as int,
                            frame_as_index(frame_of(start as int, rate as int)),
                            ClipModel {
                                frame_count: frame_as_index(
                                    clip_frame_count(start as int, duration as int, rate as int),
                                ),
                                bones: Seq::empty(),
                                channels: Seq::empty(),
                            },
                            channels.len() as int,
                        ),
                    },
                }
            },
        },
    }
}

/// The keys of a channel as they are held, with where their values are
/// found.
pub open spec fn channel_model(channel: Channel, source: DmxChannel) -> ChannelModel {
    ChannelModel {
        location: index_set_items(channel.location),
        rotation: index_set_items(channel.rotation),
        location_sources: source.location@,
        rotation_sources: source.rotation@,
    }
}

/// A clip as it is held, with where the values of its keys are found.
pub open spec fn clip_model(animation: Animation, sources: Seq<DmxChannel>) -> ClipModel {
    ClipModel {
        frame_count: animation.frame_count,
        bones: index_set_items(animation.channel_bones),
        channels: Seq::new(
            animation.channels@.len(),
            |c: int| channel_model(animation.channels@[c], sources[c]),
        ),
    }
}

/// Enters the keys that a channel asks for into a clip.
fn enter_channel(
    animation: &mut Animation,
    sources: &mut Vec<DmxChannel>,
    bone: usize,
    rotation: bool,
    layer: usize,
    times: &Vec<i32>,
    rate: i32,
    start_frame: usize,
)
    requires
        index_set_items(old(animation).channel_bones).len() == old(animation).channels@.len(),
        channels_aligned(old(animation).channels@, old(sources)@),
    ensures
        final(animation).frame_count == old(animation).frame_count,
        index_set_items(final(animation).channel_bones).len() == final(animation).channels@.len(),
        channels_aligned(final(animation).channels@, final(sources)@),
        clip_model(*final(animation), final(sources)@) == channel_entered(
            clip_model(*old(animation), old(sources)@),
            ChannelKeys { bone, rotation, layer, times: times@ },
            rate as int,
            start_frame,
        ),
{
    let ghost keys = ChannelKeys { bone, rotation, layer, times: times@ };
    let ghost before = clip_model(*animation, sources@);
    let ghost bones_before = index_set_items(animation.channel_bones);
    let count: usize = animation.frame_count;
    let placed = index_set_insert_full(&mut animation.channel_bones, bone);
    if placed.1 {
        let ghost held_channels = animation.channels@;
        let ghost held_sources = sources@;
        let location = index_set_new();
        let fresh = index_set_new();
        assert(index_set_items(location) =~= Seq::<usize>::empty());
        assert(index_set_items(fresh) =~= Seq::<usize>::empty());
        animation.channels.push(Channel { location, rotation: fresh });
        sources.push(DmxChannel { location: Vec::new(), rotation: Vec::new() });
        proof {
            assert forall|i: int| 0 <= i < animation.channels@.len() implies (
            #[trigger] sources@[i]).location@.len() == index_set_items(
                animation.channels@[i].location,
            ).len() && sources@[i].rotation@.len() == index_set_items(
                animation.channels@[i].rotation,
            ).len() by {
                if i < held_channels.len() {
                    assert(sources@[i] == held_sources[i]);
                    assert(animation.channels@[i] == held_channels[i]);
                }
            }
        }
    }
    let slot: usize = placed.0;
    let ghost bones = index_set_items(animation.channel_bones);
    let ghost widened = clip_model(*animation, sources@);
    proof {
        let chosen = bones.index_of(bone);
        assert(bones[slot as int] == bone);
        assert(bones[chosen] == bone);
        if placed.1 {
            assert(!bones_before.contains(bone));
            if chosen < bones_before.len() {
                assert(bones_before[chosen] == bone);
            }
        }
        assert(chosen == slot);
        assert(widened.channels =~= if placed.1 {
            before.channels.push(no_keys())
        } else {
            before.channels
        });
    }
    let ghost held_channels = animation.channels@;
    let ghost held_sources = sources@;
    assert(held_sources[slot as int].location@.len() == index_set_items(
        held_channels[slot as int].location,
    ).len());
    if rotation {
        load_keys(
            &mut animation.channels[slot].rotation,
            &mut sources[slot].rotation,
            layer,
            times,
            rate,
            start_frame,
            count,
        );
    } else {
        load_keys(
            &mut animation.channels[slot].location,
            &mut sources[slot].location,
            layer,
            times,
            rate,
            start_frame,
            count,
        );
    }
    proof {
        assert forall|i: int| 0 <= i < animation.channels@.len() implies (
        #[trigger] sources@[i]).location@.len() == index_set_items(
            animation.channels@[i].location,
        ).len() && sources@[i].rotation@.len() == index_set_items(
            animation.channels@[i].rotation,
        ).len() by {
            if i != slot {
                assert(sources@[i] == held_sources[i]);
                assert(animation.channels@[i] == held_channels[i]);
            }
        }
        let wanted = channel_entered(before, keys, rate as int, start_frame);
        let after = clip_model(*animation, sources@);
        assert forall|i: int| 0 <= i < after.channels.len() implies after.channels[i]
            == wanted.channels[i] by {
            if i != slot {
                assert(sources@[i] == held_sources[i]);
                assert(animation.channels@[i] == held_channels[i]);
                assert(widened.channels[i] == channel_model(held_channels[i], held_sources[i]));
            } else {
                assert(widened.channels[i] == channel_model(held_channels[i], held_sources[i]));
            }
        }
        assert(after.channels =~= wanted.channels);
    }
}

/// One animation clip: its frame count and its channels.
fn load_clip(
    document: &DmxDocument,
    clip: &DmxElement,
    skeleton: &NameMap<Bone>,
    version: i32,
) -> (loaded: Result<(Animation, Vec<DmxChannel>), ParseDMXError>)
    ensures
        match loaded {
            Ok(found) => clip_of(*document, *clip, skeleton.names(), version) == Ok::<
                ClipModel,
                DmxFault,
            >(clip_model(found.0, found.1@)) && channels_aligned(found.0.channels@, found.1@),
            Err(error) => clip_of(*document, *clip, skeleton.names(), version) == Err::<
                ClipModel,
                DmxFault,
            >(error@),
        },
        loaded matches Ok(found) ==> crate::import::animation_sound(found.0),
{
    let rate = require_integer(clip, "frameRate")?;
    let time_frame_element = require_element(document, clip, "timeFrame")?;
    let frame = &document.elements[time_frame_element];
    let start: i32 = match optional_ticks(frame, version, "startTime", "start") {
        Some(ticks) => ticks,
        None => 0,
    };
    let duration: i32 = match optional_ticks(frame, version, "durationTime", "duration") {
        Some(ticks) => ticks,
        None => {
            return Err(
                if version < 2 {
                    missing(frame, "durationTime", "Integer")
                } else {
                    missing(frame, "duration", "Time")
                },
            );
        },
    };
    let start_frame: usize = frame_index(time_frame(start as i64, rate));
    let count: usize = frame_index(frame_count_of(start, duration, rate));
    let bones = index_set_new();
    assert(index_set_items(bones) =~= Seq::<usize>::empty());
    let mut animation = Animation { frame_count: count, channel_bones: bones, channels: Vec::new() };
    let mut sources: Vec<DmxChannel> = Vec::new();
    let channels = require_elements(clip, "channels")?;
    let ghost first = clip_model(animation, sources@);
    assert(first.channels =~= Seq::<ChannelModel>::empty());
    let mut c: usize = 0;
    while c < channels.len()
        invariant
            c <= channels@.len(),
            animation.frame_count >= 1,
            index_set_items(animation.channel_bones).len() == animation.channels@.len(),
            channels_aligned(animation.channels@, sources@),
            integer_of(*clip, "frameRate"@) == Some(rate),
            element_of(*document, *clip, "timeFrame"@) == Some(time_frame_element),
            *frame == document.elements@[time_frame_element as int],
            start == match ticks_of(*frame, version, "startTime"@, "start"@) {
                Some(ticks) => ticks,
                None => 0i32,
            },
            ticks_of(*frame, version, "durationTime"@, "duration"@) == Some(duration),
            elements_of(*clip, "channels"@) == Some(channels@),
            start_frame == frame_as_index(frame_of(start as int, rate as int)),
            first == (ClipModel {
                frame_count: frame_as_index(
                    clip_frame_count(start as int, duration as int, rate as int),
                ),
                bones: Seq::empty(),
                channels: Seq::empty(),
            }),
            channels_loaded(
                *document,
                channels@,
                skeleton.names(),
                version,
                rate as int,
                start_frame,
                first,
                c as int,
            ) == Ok::<ClipModel, DmxFault>(clip_model(animation, sources@)),
        decreases channels@.len() - c,
    {
        match channels[c] {
            Some(index) => {
                if index < document.elements.len() {
                    let channel = &document.elements[index];
                    let keys = match load_channel_keys(document, channel, skeleton, version) {
                        Ok(keys) => keys,
                        Err(error) => {
                            proof {
                                lemma_channels_failed(
                                    *document,
                                    channels@,
                                    skeleton.names(),
                                    version,
                                    rate as int,
                                    start_frame,
                                    first,
                                    c + 1,
                                    channels@.len() as int,
                                );
                            }
                            return Err(error);
                        },
                    };
                    match keys {
                        Some(found) => {
                            enter_channel(
                                &mut animation,
                                &mut sources,
                                found.0,
                                found.1,
                                found.2,
                                found.3,
                                rate,
                                start_frame,
                            );
                        },
                        None => {},
                    }
                }
            },
            None => {},
        }
        c += 1;
    }
    Ok((animation, sources))
}

/// The names of the clips and the clips after the first `count` clips of a
/// list. Two clips of one name are a fault. Null references and references
/// out of the document are passed over.
pub open spec fn clips_loaded(
    document: DmxDocument,
    clips: Seq<Option<usize>>,
    bones: Seq<Seq<char>>,
    count: int,
) -> Result<(Seq<Seq<char>>, Seq<ClipModel>), DmxFault>
    decreases count,
{
    if count <= 0 {
        Ok((Seq::empty(), Seq::empty()))
    } else {
        match clips_loaded(document, clips, bones, count - 1) {
            Err(fault) => Err(fault),
            Ok((names, found)) => match clips[count - 1] {
                Some(index) => if index < document.elements@.len() {
                    let clip = document.elements@[index as int];
                    if names.contains(clip.name@) {
                        Err(DmxFault::DuplicateAnimationName(clip.name@, clip.id))
                    } else {
                        match clip_of(document, clip, bones, document.format_version) {
                            Err(fault) => Err(fault),
                            Ok(model) => Ok((names.push(clip.name@), found.push(model))),
                        }
                    }
                } else {
                    Ok((names, found))
                },
                None => Ok((names, found)),
            },
        }
    }
}

/// Once a clip is at fault, the fault stays whatever follows.
pub proof fn lemma_clips_failed(
    document: DmxDocument,
    clips: Seq<Option<usize>>,
    bones: Seq<Seq<char>>,
    failed: int,
    count: int,
)
    requires
        failed <= count,
        clips_loaded(document, clips, bones, failed) is Err,
    ensures
        clips_loaded(document, clips, bones, count) == clips_loaded(document, clips, bones, failed),
    decreases count - failed,
{
    if failed < count {
        lemma_clips_failed(document, clips, bones, failed, count - 1);
    }
}

/// The animations of a document. A document without a list of animations
/// has one animation of one frame, under the name of the file.
pub open spec fn document_animations(
    document: DmxDocument,
    root: DmxElement,
    bones: Seq<Seq<char>>,
    file_name: Seq<char>,
) -> Result<(Seq<Seq<char>>, Seq<ClipModel>), DmxFault> {
    match element_of(document, root, "animationList"@) {
        None => Ok(
            (
                seq![file_name],
                seq![ClipModel { frame_count: 1, bones: Seq::empty(), channels: Seq::empty() }],
            ),
        ),
        Some(list) => match elements_of(document.elements@[list as int], "animations"@) {
            None => Err(
                missing_fault(document.elements@[list as int], "animations"@, "ElementArray"@),
            ),
            Some(clips) => clips_loaded(document, clips, bones, clips.len() as int),
        },
    }
}

/// The clips as they are held, with where the values of their keys are
/// found.
pub open spec fn clip_models(animations: Seq<Animation>, sources: Seq<Vec<DmxChannel>>) -> Seq<
    ClipModel,
> {
    Seq::new(animations.len(), |a: int| clip_model(animations[a], sources[a]@))
}

/// The animations of a document. A document without a list of animations
/// has one animation of one frame, under the name of the file.
pub(crate) fn load_animations(
    document: &DmxDocument,
    root: &DmxElement,
    skeleton: &NameMap<Bone>,
    file_name: String,
) -> (loaded: Result<(NameMap<Animation>, Vec<Vec<DmxChannel>>), ParseDMXError>)
    ensures
        match loaded {
            Ok(animations) => document_animations(
                *document,
                *root,
                skeleton.names(),
                file_name@,
            ) == Ok::<(Seq<Seq<char>>, Seq<ClipModel>), DmxFault>(
                (animations.0.names(), clip_models(animations.0.values(), animations.1@)),
            ) && animations.1@.len() == animations.0.values().len() && forall|a: int|
                0 <= a < animations.0.values().len() ==> channels_aligned(
                    (#[trigger] animations.0.values()[a]).channels@,
                    animations.1@[a]@,
                ),
            Err(error) => document_animations(
                *document,
                *root,
                skeleton.names(),
                file_name@,
            ) == Err::<(Seq<Seq<char>>, Seq<ClipModel>), DmxFault>(error@),
        },
        loaded matches Ok(animations) ==> animations.0.well_formed() && forall|a: int|
            0 <= a < animations.0.values().len() ==> crate::import::animation_sound(
                #[trigger] animations.0.values()[a],
            ),
{
    let mut animations: NameMap<Animation> = NameMap::new();
    let mut sources: Vec<Vec<DmxChannel>> = Vec::new();
    let list = match optional_element(document, root, "animationList") {
        Some(list) => list,
        None => {
            let bones = index_set_new();
            assert(index_set_items(bones) =~= Seq::<usize>::empty());
            let ghost name = file_name@;
            let _ = animations.insert_full(
                file_name,
                Animation { frame_count: 1, channel_bones: bones, channels: Vec::new() },
            );
            sources.push(Vec::new());
            proof {
                let models = clip_models(animations.values(), sources@);
                assert(models[0].channels =~= Seq::<ChannelModel>::empty());
                assert(models =~= seq![
                    ClipModel { frame_count: 1, bones: Seq::empty(), channels: Seq::empty() },
                ]);
                assert(animations.names() =~= seq![name]);
            }
            return Ok((animations, sources));
        },
    };
    let clips = require_elements(&document.elements[list], "animations")?;
    assert(clip_models(animations.values(), sources@) =~= Seq::<ClipModel>::empty());
    let mut c: usize = 0;
    while c < clips.len()
        invariant
            c <= clips@.len(),
            animations.well_formed(),
            sources@.len() == animations.values().len(),
            element_of(*document, *root, "animationList"@) == Some(list),
            elements_of(document.elements@[list as int], "animations"@) == Some(clips@),
            clips_loaded(*document, clips@, skeleton.names(), c as int) == Ok::<
                (Seq<Seq<char>>, Seq<ClipModel>),
                DmxFault,
            >((animations.names(), clip_models(animations.values(), sources@))),
            forall|a: int|
                0 <= a < animations.values().len() ==> crate::import::animation_sound(
                    #[trigger] animations.values()[a],
                ),
            forall|a: int|
                0 <= a < animations.values().len() ==> channels_aligned(
                    (#[trigger] animations.values()[a]).channels@,
                    sources@[a]@,
                ),
        decreases clips@.len() - c,
    {
        match clips[c] {
            Some(index) => {
                if index < document.elements.len() {
                    let clip = &document.elements[index];
                    if animations.get_index_of(clip.name.as_str()).is_some() {
                        proof {
                            lemma_clips_failed(
                                *document,
                                clips@,
                                skeleton.names(),
                                c + 1,
                                clips@.len() as int,
                            );
                        }
                        return Err(
                            ParseDMXError::DuplicateAnimationName(clip.name.clone(), clip.id),
                        );
                    }
                    let loaded = match load_clip(document, clip, skeleton, document.format_version) {
                        Ok(loaded) => loaded,
                        Err(error) => {
                            proof {
                                lemma_clips_failed(
                                    *document,
                                    clips@,
                                    skeleton.names(),
                                    c + 1,
                                    clips@.len() as int,
                                );
                            }
                            return Err(error);
                        },
                    };
                    let ghost before = animations.values();
                    let ghost sources_before = sources@;
                    let ghost model = clip_model(loaded.0, loaded.1@);
                    let _ = animations.insert_full(clip.name.clone(), loaded.0);
                    sources.push(loaded.1);
                    proof {
                        assert forall|a: int|
                            0 <= a < animations.values().len() implies crate::import::animation_sound(
                            #[trigger] animations.values()[a],
                        ) by {
                            if a < before.len() {
                                assert(animations.values()[a] == before[a]);
                            }
                        }
                        assert forall|a: int|
                            0 <= a < animations.values().len() implies channels_aligned(
                            (#[trigger] animations.values()[a]).channels@,
                            sources@[a]@,
                        ) by {
                            if a < before.len() {
                                assert(animations.values()[a] == before[a]);
                                assert(sources@[a] == sources_before[a]);
                            }
                        }
                        assert(clip_models(animations.values(), sources@) =~= clip_models(
                            before,
                            sources_before,
                        ).push(model));
                    }
                }
            },
            None => {},
        }
        c += 1;
    }
    Ok((animations, sources))
}

} // verus!
