//! The state every node has, and the behavior that sets node types
//! apart.

pub mod flags;

use vstd::prelude::*;

use crate::handle::CHandle;
use crate::id::NodeId;
use crate::input;
use crate::input::{Input, InputModel};
use crate::rational::{Rational, TimeRange};
use crate::text;
use crate::value::{
    NodeValue, NodeValueRow, NodeValueTable, TableEntry, ValueModel, ValueType,
};

verus! {

/// The id of the input that every node has: whether it is enabled.
pub const ENABLED_INPUT: &'static str = "enabled_in";

/// Groups of node types.
#[derive(Clone, Copy, PartialEq, Eq, Structural, Hash, Debug)]
pub enum Category {
    Input,
    Output,
    Generator,
    Math,
    Color,
    Filter,
    Distort,
    Timeline,
    Effect,
}

/// The keyframes of one input: a value for every time.
pub trait ValueTrack {
    /// The value at `time`, which each track type is to say.
    open spec fn sampled(&self, time: Rational) -> ValueModel {
        arbitrary()
    }

    /// The value at `time`.
    fn sample(&self, time: Rational) -> (r: NodeValue)
        ensures
            r@ == self.sampled(time),
    ;
}

/// A track with a single key: its value holds at every time.
pub struct SingleKey {
    /// The key's value.
    pub value: NodeValue,
}

impl ValueTrack for SingleKey {
    open spec fn sampled(&self, time: Rational) -> ValueModel {
        self.value@
    }

    fn sample(&self, time: Rational) -> (r: NodeValue) {
        self.value.clone()
    }
}

/// A boxed track.
pub struct BoxedTrack {
    /// The track.
    pub track: Box<dyn ValueTrack>,
}

impl BoxedTrack {
    /// The value at `time`.
    pub open spec fn sampled(&self, time: Rational) -> ValueModel {
        self.track.sampled(time)
    }
}

/// The value set on one element of an input.
pub struct StandardValue {
    /// The input.
    pub id: String,
    /// The element; `-1` for an input that is no array.
    pub element: i32,
    /// The value.
    pub value: NodeValue,
}

/// The keyframes set on one element of an input.
pub struct InputTrack {
    /// The input.
    pub id: String,
    /// The element; `-1` for an input that is no array.
    pub element: i32,
    /// The keyframes.
    pub track: BoxedTrack,
}

impl InputTrack {
    /// The input and the element that the keyframes belong to.
    pub open spec fn key(&self) -> (Seq<char>, i32) {
        (self.id@, self.element)
    }

    /// The value at `time`.
    pub open spec fn sampled(&self, time: Rational) -> ValueModel {
        self.track.sampled(time)
    }
}

/// The state of a node apart from its behavior.
pub struct NodeCore {
    /// The declared inputs, in display order.
    pub inputs: Vec<Input>,
    /// The id of the main texture input; empty when there is none.
    pub effect_input: String,
    /// Flag bits, see [`flags`].
    pub flags: u32,
    /// The values that were set, the latest last.
    pub standard: Vec<StandardValue>,
    /// The keyframes that were set, the latest last.
    pub tracks: Vec<InputTrack>,
}

/// What a list of inputs declares.
pub open spec fn inputs_model(inputs: Seq<Input>) -> Seq<InputModel> {
    inputs.map_values(|i: Input| i@)
}

/// The map that a list of set values describes: the last one counts.
pub open spec fn standard_map(list: Seq<StandardValue>) -> Map<(Seq<char>, i32), ValueModel>
    decreases list.len(),
{
    if list.len() == 0 {
        Map::empty()
    } else {
        standard_map(list.drop_last()).insert(
            (list.last().id@, list.last().element),
            list.last().value@,
        )
    }
}

/// The last track of an input element.
pub open spec fn find_track(tracks: Seq<InputTrack>, id: Seq<char>, element: i32) -> Option<
    InputTrack,
>
    decreases tracks.len(),
{
    if tracks.len() == 0 {
        None
    } else if tracks.last().key() == (id, element) {
        Some(tracks.last())
    } else {
        find_track(tracks.drop_last(), id, element)
    }
}

/// The input that every node declares first.
pub open spec fn enabled_input() -> InputModel {
    input::plain_input(ENABLED_INPUT@, ValueType::Boolean, ValueModel::Boolean(true))
}

/// The state of a node whose values are all at their defaults.
pub open spec fn fresh_core(
    core: &NodeCore,
    inputs: Seq<InputModel>,
    effect_input: Seq<char>,
    flags: u32,
) -> bool {
    &&& core.input_models() == seq![enabled_input()] + inputs
    &&& core.effect_input@ == effect_input
    &&& core.flags == flags
    &&& core.standard_values() == Map::<(Seq<char>, i32), ValueModel>::empty()
    &&& core.input_tracks() == Seq::<InputTrack>::empty()
}

impl NodeCore {
    /// The declared inputs.
    pub open spec fn input_models(&self) -> Seq<InputModel> {
        inputs_model(self.inputs@)
    }

    /// The values that were set, by input and element.
    pub open spec fn standard_values(&self) -> Map<(Seq<char>, i32), ValueModel> {
        standard_map(self.standard@)
    }

    /// The keyframes that were set.
    pub open spec fn input_tracks(&self) -> Seq<InputTrack> {
        self.tracks@
    }

    /// Whether an input element has keyframes.
    pub open spec fn keyframing(&self, id: Seq<char>, element: i32) -> bool {
        find_track(self.input_tracks(), id, element) is Some
    }

    /// The value set on an input element, else the input's default, else
    /// no value.
    pub open spec fn standard_at(&self, id: Seq<char>, element: i32) -> ValueModel {
        if self.standard_values().contains_key((id, element)) {
            self.standard_values()[(id, element)]
        } else {
            match input::find_input(self.input_models(), id) {
                Some(i) => i.default,
                None => ValueModel::Empty,
            }
        }
    }

    /// The keyframed value at `time` where there are keyframes, else the
    /// standard value.
    pub open spec fn value_at(&self, id: Seq<char>, element: i32, time: Rational) -> ValueModel {
        match find_track(self.input_tracks(), id, element) {
            Some(track) => track.sampled(time),
            None => self.standard_at(id, element),
        }
    }

    /// A node that declares only [`ENABLED_INPUT`].
    pub fn new() -> (r: NodeCore)
        ensures
            fresh_core(&r, Seq::empty(), Seq::empty(), 0),
    {
        let mut inputs: Vec<Input> = Vec::new();
        inputs.push(Input::new(ENABLED_INPUT, ValueType::Boolean, NodeValue::Boolean(true)));
        let r = NodeCore {
            inputs,
            effect_input: String::new(),
            flags: 0,
            standard: Vec::new(),
            tracks: Vec::new(),
        };
        assert(r.input_models() =~= seq![enabled_input()] + Seq::<InputModel>::empty());
        r
    }

    /// Declare one more input.
    pub fn add_input(&mut self, declared: Input)
        ensures
            final(self).input_models() == old(self).input_models().push(declared@),
            final(self).effect_input == old(self).effect_input,
            final(self).flags == old(self).flags,
            final(self).standard_values() == old(self).standard_values(),
            final(self).input_tracks() == old(self).input_tracks(),
    {
        self.inputs.push(declared);
        assert(self.input_models() =~= old(self).input_models().push(declared@));
    }

    /// Borrow the input called `id`.
    pub fn get_input(&self, id: &str) -> (r: Option<&Input>)
        ensures
            match r {
                Some(i) => input::find_input(self.input_models(), id@) == Some(i@),
                None => input::find_input(self.input_models(), id@) is None,
            },
    {
        let mut i: usize = 0;
        assert(self.input_models().skip(0) =~= self.input_models());
        while i < self.inputs.len()
            invariant
                i <= self.inputs@.len(),
                input::find_input(self.input_models(), id@) == input::find_input(
                    self.input_models().skip(i as int),
                    id@,
                ),
            decreases self.inputs@.len() - i,
        {
            assert(self.input_models().skip(i as int)[0] == self.inputs@[i as int]@);
            assert(self.input_models().skip(i as int).skip(1) =~= self.input_models().skip(
                i + 1,
            ));
            if text::same(self.inputs[i].id.as_str(), id) {
                return Some(&self.inputs[i]);
            }
            i = i + 1;
        }
        None
    }

    /// The declared type of the input called `id`.
    pub fn input_data_type(&self, id: &str) -> (r: Option<ValueType>)
        ensures
            r == (match input::find_input(self.input_models(), id@) {
                Some(i) => Some(i.value_type),
                None => None,
            }),
    {
        match self.get_input(id) {
            Some(i) => Some(i.value_type),
            None => None,
        }
    }

    /// The value set on an input element, else the input's default, else
    /// no value.
    pub fn standard_value(&self, id: &str, element: i32) -> (r: NodeValue)
        ensures
            r@ == self.standard_at(id@, element),
    {
        let mut i: usize = self.standard.len();
        let ghost key = (id@, element);
        assert(self.standard@.subrange(0, self.standard@.len() as int) =~= self.standard@);
        while i > 0
            invariant
                i <= self.standard@.len(),
                key == (id@, element),
                self.standard_values().contains_key(key) == standard_map(
                    self.standard@.subrange(0, i as int),
                ).contains_key(key),
                self.standard_values().contains_key(key) ==> self.standard_values()[key]
                    == standard_map(self.standard@.subrange(0, i as int))[key],
            decreases i,
        {
            let ghost prefix = self.standard@.subrange(0, i as int);
            i = i - 1;
            assert(prefix.drop_last() =~= self.standard@.subrange(0, i as int));
            let entry: &StandardValue = &self.standard[i];
            assert(prefix.last() == entry);
            if entry.element == element && text::same(entry.id.as_str(), id) {
                return entry.value.clone();
            }
        }
        match self.get_input(id) {
            Some(declared) => declared.default.clone(),
            None => NodeValue::Empty,
        }
    }

    /// Set the value of an input element.
    pub fn set_standard_value(&mut self, id: &str, element: i32, value: NodeValue)
        ensures
            final(self).standard_values() == old(self).standard_values().insert(
                (id@, element),
                value@,
            ),
            final(self).inputs == old(self).inputs,
            final(self).effect_input == old(self).effect_input,
            final(self).flags == old(self).flags,
            final(self).input_tracks() == old(self).input_tracks(),
    {
        self.standard.push(StandardValue { id: id.to_string(), element, value });
        assert(self.standard@.drop_last() =~= old(self).standard@);
    }

    /// Give an input element keyframes.
    pub fn set_track(&mut self, id: &str, element: i32, track: BoxedTrack)
        ensures
            final(self).input_tracks().len() == old(self).input_tracks().len() + 1,
            final(self).input_tracks().drop_last() == old(self).input_tracks(),
            final(self).input_tracks().last().key() == (id@, element),
            final(self).input_tracks().last().track == track,
            forall|time: Rational|
                final(self).input_tracks().last().sampled(time) == track.sampled(time),
            final(self).inputs == old(self).inputs,
            final(self).effect_input == old(self).effect_input,
            final(self).flags == old(self).flags,
            final(self).standard_values() == old(self).standard_values(),
    {
        self.tracks.push(InputTrack { id: id.to_string(), element, track });
        assert(self.tracks@.drop_last() =~= old(self).tracks@);
    }

    /// The index of the last track of an input element.
    fn track_position(&self, id: &str, element: i32) -> (r: Option<usize>)
        ensures
            match r {
                Some(i) => {
                    &&& i < self.tracks@.len()
                    &&& find_track(self.tracks@, id@, element) == Some(self.tracks@[i as int])
                },
                None => find_track(self.tracks@, id@, element) is None,
            },
    {
        let mut i: usize = self.tracks.len();
        assert(self.tracks@.subrange(0, self.tracks@.len() as int) =~= self.tracks@);
        while i > 0
            invariant
                i <= self.tracks@.len(),
                find_track(self.tracks@, id@, element) == find_track(
                    self.tracks@.subrange(0, i as int),
                    id@,
                    element,
                ),
            decreases i,
        {
            let ghost prefix = self.tracks@.subrange(0, i as int);
            i = i - 1;
            assert(prefix.drop_last() =~= self.tracks@.subrange(0, i as int));
            assert(prefix.last() == self.tracks@[i as int]);
            if self.tracks[i].element == element && text::same(self.tracks[i].id.as_str(), id) {
                return Some(i);
            }
        }
        None
    }

    /// Whether an input element has keyframes.
    pub fn is_input_keyframing(&self, id: &str, element: i32) -> (r: bool)
        ensures
            r == self.keyframing(id@, element),
    {
        self.track_position(id, element).is_some()
    }

    /// The keyframed value at `time` where there are keyframes, else the
    /// standard value.
    pub fn value_at_time(&self, id: &str, element: i32, time: Rational) -> (r: NodeValue)
        ensures
            r@ == self.value_at(id@, element, time),
    {
        match self.track_position(id, element) {
            Some(i) => self.tracks[i].track.track.sample(time),
            None => self.standard_value(id, element),
        }
    }
}

/// Whether `j` is the place of the last keyframes set on an input element.
pub open spec fn is_last_track(
    tracks: Seq<InputTrack>,
    j: int,
    id: Seq<char>,
    element: i32,
) -> bool {
    &&& 0 <= j < tracks.len()
    &&& tracks[j].id@ == id && tracks[j].element == element
    &&& forall|k: int|
        j < k < tracks.len() ==> !((#[trigger] tracks[k]).id@ == id && tracks[k].element
            == element)
}

/// Whether `j` is the place of the last value set on an input element.
pub open spec fn is_last_set(
    list: Seq<StandardValue>,
    j: int,
    id: Seq<char>,
    element: i32,
) -> bool {
    &&& 0 <= j < list.len()
    &&& list[j].id@ == id && list[j].element == element
    &&& forall|k: int|
        j < k < list.len() ==> !((#[trigger] list[k]).id@ == id && list[k].element == element)
}

/// Whether `j` is the place of the first input declared as `id`.
pub open spec fn is_first_declared(inputs: Seq<Input>, j: int, id: Seq<char>) -> bool {
    &&& 0 <= j < inputs.len()
    &&& inputs[j].id@ == id
    &&& forall|k: int| 0 <= k < j ==> (#[trigger] inputs[k]).id@ != id
}

/// Whether `value` is what was set on an input element last, what the input
/// was declared with where nothing was set, and no value where there is no
/// such input.
pub open spec fn is_standard_value(
    core: &NodeCore,
    id: Seq<char>,
    element: i32,
    value: ValueModel,
) -> bool {
    &&& forall|j: int| #[trigger]
        is_last_set(core.standard@, j, id, element) ==> value == core.standard@[j].value@
    &&& (forall|j: int| !#[trigger] is_last_set(core.standard@, j, id, element)) ==> {
        &&& forall|j: int| #[trigger]
            is_first_declared(core.inputs@, j, id) ==> value == core.inputs@[j].default@
        &&& (forall|j: int| !#[trigger] is_first_declared(core.inputs@, j, id)) ==> value
            == ValueModel::Empty
    }
}

/// Whether `value` is the node's own value of an input element at `time`:
/// what its keyframes give at that time where it has some, else its
/// standard value.
pub open spec fn is_own_value(
    core: &NodeCore,
    id: Seq<char>,
    element: i32,
    time: Rational,
    value: ValueModel,
) -> bool {
    &&& forall|j: int| #[trigger]
        is_last_track(core.tracks@, j, id, element) ==> value
            == core.tracks@[j].track.track.sampled(time)
    &&& (forall|j: int| !#[trigger] is_last_track(core.tracks@, j, id, element))
        ==> is_standard_value(core, id, element, value)
}

/// The track that is found is the last one.
proof fn lemma_track_found(tracks: Seq<InputTrack>, id: Seq<char>, element: i32)
    ensures
        match find_track(tracks, id, element) {
            Some(track) => exists|j: int|
                #[trigger] is_last_track(tracks, j, id, element) && track == tracks[j],
            None => forall|j: int| !#[trigger] is_last_track(tracks, j, id, element),
        },
    decreases tracks.len(),
{
    if tracks.len() > 0 {
        let fewer = tracks.drop_last();
        if tracks.last().key() == (id, element) {
            assert(is_last_track(tracks, tracks.len() - 1, id, element));
        } else {
            lemma_track_found(fewer, id, element);
            assert forall|j: int|
                #![trigger is_last_track(tracks, j, id, element)]
                #![trigger is_last_track(fewer, j, id, element)]
                is_last_track(tracks, j, id, element) == is_last_track(fewer, j, id, element) by {
                assert(tracks[tracks.len() - 1] == tracks.last());
                if is_last_track(tracks, j, id, element) {
                    assert forall|k: int| j < k < fewer.len() implies !((
                    #[trigger] fewer[k]).id@ == id && fewer[k].element == element) by {
                        assert(fewer[k] == tracks[k]);
                    }
                }
                if is_last_track(fewer, j, id, element) {
                    assert forall|k: int| j < k < tracks.len() implies !((
                    #[trigger] tracks[k]).id@ == id && tracks[k].element == element) by {
                        if k < fewer.len() {
                            assert(fewer[k] == tracks[k]);
                        }
                    }
                }
            }
        }
    }
}

/// The value that counts is the last one that was set.
proof fn lemma_set_value_found(list: Seq<StandardValue>, id: Seq<char>, element: i32)
    ensures
        standard_map(list).contains_key((id, element)) ==> exists|j: int|
            #[trigger] is_last_set(list, j, id, element) && standard_map(list)[(id, element)]
                == list[j].value@,
        !standard_map(list).contains_key((id, element)) ==> forall|j: int| !#[trigger]
            is_last_set(list, j, id, element),
    decreases list.len(),
{
    if list.len() > 0 {
        let fewer = list.drop_last();
        if list.last().id@ == id && list.last().element == element {
            assert(is_last_set(list, list.len() - 1, id, element));
        } else {
            lemma_set_value_found(fewer, id, element);
            assert forall|j: int|
                #![trigger is_last_set(list, j, id, element)]
                #![trigger is_last_set(fewer, j, id, element)]
                is_last_set(list, j, id, element) == is_last_set(fewer, j, id, element) by {
                assert(list[list.len() - 1] == list.last());
                if is_last_set(list, j, id, element) {
                    assert forall|k: int| j < k < fewer.len() implies !((
                    #[trigger] fewer[k]).id@ == id && fewer[k].element == element) by {
                        assert(fewer[k] == list[k]);
                    }
                }
                if is_last_set(fewer, j, id, element) {
                    assert forall|k: int| j < k < list.len() implies !((
                    #[trigger] list[k]).id@ == id && list[k].element == element) by {
                        if k < fewer.len() {
                            assert(fewer[k] == list[k]);
                        }
                    }
                }
            }
        }
    }
}

/// The input that is found is the first one declared.
pub proof fn lemma_input_found(core: &NodeCore, id: Seq<char>, from: int)
    requires
        0 <= from <= core.inputs@.len(),
        forall|k: int| 0 <= k < from ==> (#[trigger] core.inputs@[k]).id@ != id,
    ensures
        match input::find_input(core.input_models().skip(from), id) {
            Some(declared) => exists|j: int|
                #[trigger] is_first_declared(core.inputs@, j, id) && declared == core.inputs@[j]@,
            None => forall|j: int| !#[trigger] is_first_declared(core.inputs@, j, id),
        },
    decreases core.inputs@.len() - from,
{
    let rest = core.input_models().skip(from);
    if from < core.inputs@.len() {
        assert(rest[0] == core.inputs@[from]@);
        assert(rest.skip(1) =~= core.input_models().skip(from + 1));
        if rest[0].id == id {
            assert(is_first_declared(core.inputs@, from, id));
        } else {
            lemma_input_found(core, id, from + 1);
        }
    }
}

/// The standard value of an input element.
pub proof fn lemma_standard_value(core: &NodeCore, id: Seq<char>, element: i32)
    ensures
        is_standard_value(core, id, element, core.standard_at(id, element)),
{
    lemma_set_value_found(core.standard@, id, element);
    lemma_input_found(core, id, 0);
    assert(core.input_models().skip(0) =~= core.input_models());
    let value = core.standard_at(id, element);
    assert forall|j: int| #[trigger] is_last_set(
        core.standard@,
        j,
        id,
        element,
    ) implies value == core.standard@[j].value@ by {
        let k = choose|k: int|
            #[trigger] is_last_set(core.standard@, k, id, element)
                && core.standard_values()[(id, element)] == core.standard@[k].value@;
        assert(core.standard@[j].id@ == id && core.standard@[k].id@ == id);
        assert(j == k);
    }
    if !core.standard_values().contains_key((id, element)) {
        assert forall|j: int| #[trigger] is_first_declared(core.inputs@, j, id) implies value
            == core.inputs@[j].default@ by {
            let k = choose|k: int|
                #[trigger] is_first_declared(core.inputs@, k, id) && input::find_input(
                    core.input_models(),
                    id,
                ) == Some(core.inputs@[k]@);
            assert(core.inputs@[j].id@ == id && core.inputs@[k].id@ == id);
            assert(j == k);
        }
    } else {
        let k = choose|k: int|
            #[trigger] is_last_set(core.standard@, k, id, element)
                && core.standard_values()[(id, element)] == core.standard@[k].value@;
        assert(is_last_set(core.standard@, k, id, element));
    }
}

/// The node's own value of an input element.
pub proof fn lemma_own_value(core: &NodeCore, id: Seq<char>, element: i32, time: Rational)
    ensures
        is_own_value(core, id, element, time, core.value_at(id, element, time)),
{
    lemma_track_found(core.tracks@, id, element);
    lemma_standard_value(core, id, element);
    let value = core.value_at(id, element, time);
    assert forall|j: int| #[trigger] is_last_track(core.tracks@, j, id, element) implies value
        == core.tracks@[j].track.track.sampled(time) by {
        let k = choose|k: int|
            #[trigger] is_last_track(core.tracks@, k, id, element) && find_track(
                core.tracks@,
                id,
                element,
            ) == Some(core.tracks@[k]);
        assert(core.tracks@[j].id@ == id && core.tracks@[k].id@ == id);
        assert(j == k);
    }
    if find_track(core.tracks@, id, element) is Some {
        let k = choose|k: int|
            #[trigger] is_last_track(core.tracks@, k, id, element) && find_track(
                core.tracks@,
                id,
                element,
            ) == Some(core.tracks@[k]);
        assert(is_last_track(core.tracks@, k, id, element));
    }
}

/// What a node's own values are: reading a value at a time gives what the
/// keyframes that were set last give at that time. Without keyframes it
/// gives the value that was set last, else the declared default.
pub proof fn law_own_values_are_keyframes_then_settings_then_defaults(
    core: &NodeCore,
    id: &str,
    element: i32,
    time: Rational,
    r: NodeValue,
    standard: NodeValue,
    keyframing: bool,
)
    requires
        call_ensures(NodeCore::value_at_time, (core, id, element, time), r),
        call_ensures(NodeCore::standard_value, (core, id, element), standard),
        call_ensures(NodeCore::is_input_keyframing, (core, id, element), keyframing),
    ensures
        is_own_value(core, id@, element, time, r@),
        is_standard_value(core, id@, element, standard@),
        keyframing == exists|j: int| #[trigger] is_last_track(core.tracks@, j, id@, element),
{
    lemma_own_value(core, id@, element, time);
    lemma_standard_value(core, id@, element);
    lemma_track_found(core.tracks@, id@, element);
}

/// The inputs of a node are looked up by their ids: what is found is the
/// first input that was declared with the id.
pub proof fn law_inputs_are_found_by_their_ids(
    core: &NodeCore,
    id: &str,
    found: Option<&Input>,
    kind: Option<ValueType>,
    j: int,
)
    requires
        call_ensures(NodeCore::get_input, (core, id), found),
        call_ensures(NodeCore::input_data_type, (core, id), kind),
    ensures
        is_first_declared(core.inputs@, j, id@) ==> (found matches Some(declared) && declared@
            == core.inputs@[j]@) && kind == Some(core.inputs@[j].value_type),
        (forall|k: int| 0 <= k < core.inputs@.len() ==> (#[trigger] core.inputs@[k]).id@ != id@)
            ==> found is None && kind is None,
{
    lemma_input_found(core, id@, 0);
    assert(core.input_models().skip(0) =~= core.input_models());
    if is_first_declared(core.inputs@, j, id@) {
        let k = choose|k: int|
            #[trigger] is_first_declared(core.inputs@, k, id@) && input::find_input(
                core.input_models(),
                id@,
            ) == Some(core.inputs@[k]@);
        assert(core.inputs@[j].id@ == id@ && core.inputs@[k].id@ == id@);
        assert(j == k);
    }
    if forall|k: int| 0 <= k < core.inputs@.len() ==> (#[trigger] core.inputs@[k]).id@ != id@ {
        if input::find_input(core.input_models(), id@) is Some {
            let k = choose|k: int| #[trigger] is_first_declared(core.inputs@, k, id@);
            assert(core.inputs@[k].id@ == id@);
        }
    }
}

/// Setting a value changes the value of that input element and of no
/// other, as long as it has no keyframes; setting keyframes makes them
/// count.
pub proof fn law_settings_are_read_back(
    core: &mut NodeCore,
    id: &str,
    element: i32,
    value: NodeValue,
    other: Seq<char>,
    place: i32,
    time: Rational,
)
    requires
        call_ensures(NodeCore::set_standard_value, (core, id, element, value), ()),
    ensures
        is_standard_value(&*final(core), id@, element, value@),
        final(core).standard_at(id@, element) == value@,
        (other, place) != (id@, element) ==> final(core).standard_at(other, place)
            == old(core).standard_at(other, place),
        final(core).keyframing(other, place) == old(core).keyframing(other, place),
{
    lemma_standard_value(&*final(core), id@, element);
}

/// Keyframes that an input element was given last give its value at every
/// time from then on, and no other element changes.
pub proof fn law_keyframes_are_read_back(
    core: &mut NodeCore,
    id: &str,
    element: i32,
    track: BoxedTrack,
    other: Seq<char>,
    place: i32,
    time: Rational,
)
    requires
        call_ensures(NodeCore::set_track, (core, id, element, track), ()),
    ensures
        is_own_value(&*final(core), id@, element, time, track.sampled(time)),
        final(core).keyframing(id@, element),
        (other, place) != (id@, element) ==> final(core).value_at(other, place, time) == old(
            core).value_at(other, place, time),
{
    lemma_own_value(&*final(core), id@, element, time);
    assert(final(core).input_tracks().last().sampled(time) == track.sampled(time));
}

/// A reader positioned inside a serialized project.
pub trait XmlRead {
    /// How many elements were skipped, which each reader is to say.
    open spec fn skipped(&self) -> nat {
        arbitrary()
    }

    /// Skip to the end of the current element.
    fn skip_current_element(&mut self)
        ensures
            final(self).skipped() == old(self).skipped() + 1,
    ;
}

/// What sets a node type apart: its names, its outputs and its shaders.
pub trait NodeBehavior {
    /// The human-readable name, which each node type is to say.
    open spec fn spec_name(&self) -> Seq<char> {
        arbitrary()
    }

    /// The stable type id, which each node type is to say.
    open spec fn spec_type_id(&self) -> Seq<char> {
        arbitrary()
    }

    /// Whether evaluating the node with `row` at `time` may turn the
    /// table `before` into `after`; for a node type that says nothing,
    /// anything may come out.
    open spec fn emits(
        &self,
        core: &NodeCore,
        row: Map<Seq<char>, ValueModel>,
        time: Rational,
        before: Seq<TableEntry>,
        after: Seq<TableEntry>,
    ) -> bool {
        true
    }

    /// The human-readable name.
    fn name(&self) -> (r: &str)
        ensures
            r@ == self.spec_name(),
    ;

    /// The stable type id.
    fn type_id(&self) -> (r: &str)
        ensures
            r@ == self.spec_type_id(),
    ;

    /// The groups the node type is listed under.
    fn categories(&self) -> (r: &[Category])
        default_ensures
            r@ == Seq::<Category>::empty(),
    {
        &[]
    }

    /// One sentence on what the node does.
    fn description(&self) -> (r: &str)
        default_ensures
            r@ == ""@,
    {
        ""
    }

    /// The human-readable name of an input.
    fn input_name<'a>(&self, id: &'a str) -> (r: &'a str)
        default_ensures
            r@ == (if id@ == ENABLED_INPUT@ {
                "Enabled"@
            } else {
                id@
            }),
    {
        if text::same(id, ENABLED_INPUT) {
            "Enabled"
        } else {
            id
        }
    }

    /// The option labels of a combo input.
    fn input_combo_strings(&self, id: &str) -> (r: Vec<&'static str>)
        default_ensures
            r@ == Seq::<&'static str>::empty(),
    {
        Vec::new()
    }

    /// Evaluate the node: put its outputs into `table`.
    fn value(
        &self,
        core: &NodeCore,
        inputs: &NodeValueRow,
        time: Rational,
        table: &mut NodeValueTable,
    )
        ensures
            self.emits(core, inputs@, time, old(table)@, final(table)@),
    ;

    /// The fragment shader of a variant.
    fn shader_code(&self, request: &str) -> (r: Option<String>)
        default_ensures
            r is None,
    {
        None
    }

    /// Draw into a frame directly.
    fn generate_frame(&self, core: &NodeCore, frame: &mut CHandle, time: Rational)
        default_ensures
            *final(frame) == *old(frame),
    {
    }

    /// Bring the node's on-screen controls up to date.
    fn gizmo_update(&self, core: &NodeCore, row: &NodeValueRow) {
    }

    /// An input value was changed.
    fn input_value_changed(&mut self, core: &mut NodeCore, changed: &str, element: i32)
        default_ensures
            *final(core) == *old(core),
    {
    }

    /// The node was loaded and its inputs are set.
    fn post_load(&mut self, core: &mut NodeCore)
        default_ensures
            *final(core) == *old(core),
    {
    }

    /// Read the node's own part of a serialized project. A node type that
    /// has none skips it.
    fn load_custom(&mut self, core: &mut NodeCore, reader: &mut dyn XmlRead) -> (r: bool)
        default_ensures
            r,
            *final(core) == *old(core),
            final(reader).skipped() == old(reader).skipped() + 1,
    {
        reader.skip_current_element();
        true
    }

    /// A copy of the behavior; `None` when the node cannot be copied.
    fn duplicate(&self, core: &NodeCore) -> (r: Option<Self>) where Self: Sized;
}

/// A boxed behavior.
pub struct BoxedBehavior {
    /// The behavior.
    pub behavior: Box<dyn NodeBehavior>,
}

/// Where and when a node pulls its inputs, for node types that do not
/// simply take the node at the other end of an edge at their own time:
/// a clip maps sequence time to media time, a track pulls only the
/// blocks that cover the frame.
pub trait InputRouting {
    /// The node to pull in place of the one an edge starts at, which each
    /// routing is to say.
    open spec fn spec_output(&self, core: &NodeCore, input: Seq<char>, element: i32) -> Option<NodeId> {
        arbitrary()
    }

    /// The time to pull an input at, which each routing is to say.
    open spec fn spec_time(
        &self,
        core: &NodeCore,
        input: Seq<char>,
        element: i32,
        time: TimeRange,
        traverse: bool,
    ) -> TimeRange {
        arbitrary()
    }

    /// The elements of an array input that count at `time`, which each
    /// routing is to say; none means all.
    open spec fn spec_active(&self, input: Seq<char>, time: Rational) -> Seq<i32> {
        arbitrary()
    }

    /// The node to pull in place of the one an edge starts at.
    fn connected_render_output(&self, core: &NodeCore, input: &str, element: i32) -> (r: Option<
        NodeId,
    >)
        ensures
            r == self.spec_output(core, input@, element),
    ;

    /// The time to pull an input at.
    fn input_time_adjustment(
        &self,
        core: &NodeCore,
        input: &str,
        element: i32,
        time: TimeRange,
        traverse: bool,
    ) -> (r: TimeRange)
        ensures
            r == self.spec_time(core, input@, element, time, traverse),
    ;

    /// The elements of an array input that count at `time`; none means
    /// all.
    fn active_elements_at_time(&self, input: &str, time: Rational) -> (r: Vec<i32>)
        ensures
            r@ == self.spec_active(input@, time),
    ;
}

/// A boxed routing.
pub struct BoxedRouting {
    /// The routing.
    pub routing: Box<dyn InputRouting>,
}

/// There is one own value of an input element at a time.
pub proof fn lemma_one_own_value(
    core: &NodeCore,
    id: Seq<char>,
    element: i32,
    time: Rational,
    value: ValueModel,
)
    requires
        is_own_value(core, id, element, time, value),
    ensures
        value == core.value_at(id, element, time),
{
    lemma_own_value(core, id, element, time);
    lemma_track_found(core.tracks@, id, element);
    lemma_set_value_found(core.standard@, id, element);
    lemma_input_found(core, id, 0);
    assert(core.input_models().skip(0) =~= core.input_models());
}

/// An input element is keyframed where it has a track.
pub proof fn lemma_keyframing(core: &NodeCore, id: Seq<char>, element: i32)
    ensures
        core.keyframing(id, element) <==> exists|j: int| #[trigger]
            is_last_track(core.tracks@, j, id, element),
{
    lemma_track_found(core.tracks@, id, element);
}

/// There is one standard value of an input element.
pub proof fn lemma_one_standard_value(
    core: &NodeCore,
    id: Seq<char>,
    element: i32,
    value: ValueModel,
)
    requires
        is_standard_value(core, id, element, value),
    ensures
        value == core.standard_at(id, element),
{
    lemma_standard_value(core, id, element);
    lemma_set_value_found(core.standard@, id, element);
    lemma_input_found(core, id, 0);
    assert(core.input_models().skip(0) =~= core.input_models());
}

/// A new node declares the toggle that every node has, which is on, and
/// nothing else.
pub proof fn law_new_nodes_are_enabled(r: NodeCore)
    requires
        call_ensures(NodeCore::new, (), r),
    ensures
        r.inputs@.len() == 1,
        r.inputs@[0].id@ == "enabled_in"@,
        r.inputs@[0].value_type == ValueType::Boolean,
        r.inputs@[0].default@ == ValueModel::Boolean(true),
{
    assert(r.input_models()[0] == r.inputs@[0]@);
}

} // verus!
