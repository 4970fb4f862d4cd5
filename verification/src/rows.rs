//! Input rows: what a node is given to evaluate.
//!
//! A connected input takes the upstream output, pulled from the memo at
//! the time the consuming node asks for; an unconnected input takes the
//! node's own value.

use vstd::prelude::*;

use crate::graph;
use crate::graph::{Connection, Graph, NodeEntry};
use crate::id::NodeId;
use crate::input;
use crate::input::Input;
use crate::memo;
use crate::memo::{Key, Memo};
use crate::node;
use crate::node::NodeCore;
use crate::rational::{Rational, TimeRange};
use crate::text;
use crate::value;
use crate::value::{NodeValue, NodeValueRow, NodeValueTable, TableEntry, ValueModel, ValueType};

verus! {

/// The order in which an input that is no texture looks for a value.
pub open spec fn scalar_order() -> Seq<ValueType> {
    seq![
        ValueType::Float,
        ValueType::Int,
        ValueType::Color,
        ValueType::Vec2,
        ValueType::Vec3,
        ValueType::Vec4,
        ValueType::Boolean,
        ValueType::Rational,
        ValueType::Text,
        ValueType::Combo,
        ValueType::StrCombo,
        ValueType::Texture,
    ]
}

/// The most recent value of the first type in `kinds` that `table` has.
pub open spec fn first_of(table: Seq<TableEntry>, kinds: Seq<ValueType>) -> ValueModel
    decreases kinds.len(),
{
    if kinds.len() == 0 {
        ValueModel::Empty
    } else {
        match value::last_of(table, kinds[0]) {
            Some(v) => v,
            None => first_of(table, kinds.skip(1)),
        }
    }
}

/// The value an input of `data_type` takes from an upstream table.
pub open spec fn picked(table: Seq<TableEntry>, data_type: Option<ValueType>) -> ValueModel {
    if data_type == Some(ValueType::Texture) {
        first_of(table, seq![ValueType::Texture])
    } else {
        first_of(table, scalar_order())
    }
}

/// Take the row value of an input of `data_type` from an upstream table.
///
/// A texture input takes the upstream texture; any other input takes the
/// most recent value of the first type it finds in a fixed order.
pub fn pick_value(table: &NodeValueTable, data_type: Option<ValueType>) -> (r: NodeValue)
    ensures
        r@ == picked(table@, data_type),
{
    let texture_only: bool = match data_type {
        Some(kind) => kind == ValueType::Texture,
        None => false,
    };
    if texture_only {
        proof {
            reveal_with_fuel(first_of, 2);
            assert(seq![ValueType::Texture].skip(1) =~= Seq::empty());
        }
        return match table.get(ValueType::Texture) {
            Some(v) => v.clone(),
            None => NodeValue::Empty,
        };
    }
    let order: [ValueType; 12] = [
        ValueType::Float,
        ValueType::Int,
        ValueType::Color,
        ValueType::Vec2,
        ValueType::Vec3,
        ValueType::Vec4,
        ValueType::Boolean,
        ValueType::Rational,
        ValueType::Text,
        ValueType::Combo,
        ValueType::StrCombo,
        ValueType::Texture,
    ];
    assert(order@ =~= scalar_order());
    let mut i: usize = 0;
    assert(order@.skip(0) =~= order@);
    while i < 12
        invariant
            i <= 12,
            order@.len() == 12,
            picked(table@, data_type) == first_of(table@, order@),
            first_of(table@, order@) == first_of(table@, order@.skip(i as int)),
        decreases 12 - i,
    {
        assert(order@.skip(i as int).skip(1) =~= order@.skip(i + 1));
        match table.get(order[i]) {
            Some(v) => {
                return v.clone();
            },
            None => {},
        }
        i = i + 1;
    }
    NodeValue::Empty
}

/// A source and the element it feeds.
pub type Feed = (NodeId, i32);

/// The connections that end at the input `id`, in order.
pub open spec fn feeds(connections: Seq<Connection>, id: Seq<char>) -> Seq<Feed>
    decreases connections.len(),
{
    if connections.len() == 0 {
        Seq::empty()
    } else {
        let rest = feeds(connections.drop_last(), id);
        let last = connections.last();
        if last.1 == id {
            rest.push((last.0, last.2))
        } else {
            rest
        }
    }
}

/// Some feed names an array element.
pub open spec fn has_element(list: Seq<Feed>) -> bool {
    exists|i: int| 0 <= i < list.len() && (#[trigger] list[i]).1 >= 0
}

/// The feeds of the given elements; all of them when none is given.
pub open spec fn active_feeds(list: Seq<Feed>, active: Seq<i32>) -> Seq<Feed>
    decreases list.len(),
{
    if active.len() == 0 || list.len() == 0 {
        list
    } else {
        let rest = active_feeds(list.drop_last(), active);
        if active.contains(list.last().1) {
            rest.push(list.last())
        } else {
            rest
        }
    }
}

/// `list` with `feed` behind every feed of an element up to its own.
pub open spec fn insert_feed(list: Seq<Feed>, feed: Feed) -> Seq<Feed>
    decreases list.len(),
{
    if list.len() == 0 || list.last().1 <= feed.1 {
        list.push(feed)
    } else {
        insert_feed(list.drop_last(), feed).push(list.last())
    }
}

/// The feeds by ascending element; equal elements keep their order.
pub open spec fn sorted_feeds(list: Seq<Feed>) -> Seq<Feed>
    decreases list.len(),
{
    if list.len() == 0 {
        list
    } else {
        insert_feed(sorted_feeds(list.drop_last()), list.last())
    }
}

/// The feeds of an input in the order they enter the row: an array input
/// keeps the elements that count, by ascending element.
pub open spec fn arranged(list: Seq<Feed>, active: Seq<i32>) -> Seq<Feed> {
    if has_element(list) {
        sorted_feeds(active_feeds(list, active))
    } else {
        list
    }
}

/// The row key of an element: `id[element]` for an array element, else
/// the id itself.
pub open spec fn row_key(id: Seq<char>, element: i32) -> Seq<char> {
    if element >= 0 {
        id.push('[') + text::decimal(element as nat).push(']')
    } else {
        id
    }
}

/// The value an input element takes from the memo: that of the node it
/// pulls, at the time it pulls it, or none when that was not evaluated.
pub open spec fn pulled(
    entry: &NodeEntry,
    tables: Map<Key, Seq<TableEntry>>,
    id: Seq<char>,
    feed: Feed,
    time: Rational,
) -> ValueModel {
    let key = (entry.source((feed.0, id, feed.1)), entry.pull_time(id, feed.1, time));
    if tables.contains_key(key) {
        picked(tables[key], declared_type(entry, id))
    } else {
        ValueModel::Empty
    }
}

/// `row` with the values that feeds bring to the input `id`.
pub open spec fn with_feeds(
    entry: &NodeEntry,
    tables: Map<Key, Seq<TableEntry>>,
    id: Seq<char>,
    list: Seq<Feed>,
    time: Rational,
    row: Map<Seq<char>, ValueModel>,
) -> Map<Seq<char>, ValueModel>
    decreases list.len(),
{
    if list.len() == 0 {
        row
    } else {
        with_feeds(entry, tables, id, list.drop_last(), time, row).insert(
            row_key(id, list.last().1),
            pulled(entry, tables, id, list.last(), time),
        )
    }
}

/// `row` with what the input `id` brings.
pub open spec fn with_input(
    entry: &NodeEntry,
    connections: Seq<Connection>,
    tables: Map<Key, Seq<TableEntry>>,
    id: Seq<char>,
    time: Rational,
    row: Map<Seq<char>, ValueModel>,
) -> Map<Seq<char>, ValueModel> {
    let list = feeds(connections, id);
    if list.len() == 0 {
        row.insert(id, entry.core.value_at(id, -1i32, time))
    } else {
        with_feeds(entry, tables, id, arranged(list, entry.active(id, time)), time, row)
    }
}

/// The row that the first `upto` inputs of a node make.
pub open spec fn row_of_inputs(
    entry: &NodeEntry,
    connections: Seq<Connection>,
    tables: Map<Key, Seq<TableEntry>>,
    time: Rational,
    upto: int,
) -> Map<Seq<char>, ValueModel>
    decreases upto,
{
    if upto <= 0 {
        Map::empty()
    } else {
        with_input(
            entry,
            connections,
            tables,
            entry.core.input_models()[upto - 1].id,
            time,
            row_of_inputs(entry, connections, tables, time, upto - 1),
        )
    }
}

/// The row of a node at `time`, given the tables known so far.
pub open spec fn input_row(
    entry: &NodeEntry,
    connections: Seq<Connection>,
    tables: Map<Key, Seq<TableEntry>>,
    time: Rational,
) -> Map<Seq<char>, ValueModel> {
    row_of_inputs(
        entry,
        connections,
        tables,
        time,
        entry.core.input_models().len() as int,
    )
}

/// The node to pull for a connection.
pub fn source_of(entry: &NodeEntry, from: NodeId, name: &str, element: i32) -> (r: NodeId)
    ensures
        r == entry.source((from, name@, element)),
{
    match &entry.routing {
        None => from,
        Some(boxed) => match boxed.routing.connected_render_output(&entry.core, name, element) {
            Some(other) => other,
            None => from,
        },
    }
}

/// The time the consuming node pulls an input element at. A frame is
/// evaluated at a point, so this is the in point of the adjusted range.
pub fn adjusted_time(entry: &NodeEntry, name: &str, element: i32, time: Rational) -> (r: Rational)
    ensures
        r == entry.pull_time(name@, element, time),
{
    match &entry.routing {
        None => time,
        Some(boxed) => boxed.routing.input_time_adjustment(
            &entry.core,
            name,
            element,
            TimeRange::new(time, time),
            true,
        ).in_(),
    }
}

/// The connections that end at the input called `id`.
fn feeds_of(connections: &Vec<(NodeId, String, i32)>, id: &str) -> (r: Vec<(NodeId, i32)>)
    ensures
        r@ == feeds(graph::connection_models(connections@), id@),
{
    let mut out: Vec<(NodeId, i32)> = Vec::new();
    let mut i: usize = 0;
    let ghost models = graph::connection_models(connections@);
    assert(models.subrange(0, 0) =~= Seq::empty());
    while i < connections.len()
        invariant
            i <= connections@.len(),
            models == graph::connection_models(connections@),
            out@ == feeds(models.subrange(0, i as int), id@),
        decreases connections@.len() - i,
    {
        let c: &(NodeId, String, i32) = &connections[i];
        proof {
            let longer = models.subrange(0, i + 1);
            assert(longer.drop_last() =~= models.subrange(0, i as int));
            assert(longer.last() == (c.0, c.1@, c.2));
        }
        if text::same(c.1.as_str(), id) {
            out.push((c.0, c.2));
        }
        i = i + 1;
    }
    assert(models.subrange(0, i as int) =~= models);
    out
}

/// Whether some feed names an array element.
fn names_element(list: &Vec<(NodeId, i32)>) -> (r: bool)
    ensures
        r == has_element(list@),
{
    let mut i: usize = 0;
    while i < list.len()
        invariant
            i <= list@.len(),
            forall|j: int| 0 <= j < i ==> (#[trigger] list@[j]).1 < 0,
        decreases list@.len() - i,
    {
        if list[i].1 >= 0 {
            assert(list@[i as int].1 >= 0);
            return true;
        }
        i = i + 1;
    }
    false
}

/// Whether `list` holds `element`.
fn holds(list: &Vec<i32>, element: i32) -> (r: bool)
    ensures
        r == list@.contains(element),
{
    let mut i: usize = 0;
    while i < list.len()
        invariant
            i <= list@.len(),
            forall|j: int| 0 <= j < i ==> list@[j] != element,
        decreases list@.len() - i,
    {
        if list[i] == element {
            assert(list@[i as int] == element);
            return true;
        }
        i = i + 1;
    }
    false
}

/// The feeds of the given elements; all of them when none is given.
fn retain_active(list: Vec<(NodeId, i32)>, active: &Vec<i32>) -> (r: Vec<(NodeId, i32)>)
    ensures
        r@ == active_feeds(list@, active@),
{
    if active.len() == 0 {
        return list;
    }
    let mut out: Vec<(NodeId, i32)> = Vec::new();
    let mut i: usize = 0;
    assert(list@.subrange(0, 0) =~= out@);
    while i < list.len()
        invariant
            i <= list@.len(),
            active@.len() > 0,
            out@ == active_feeds(list@.subrange(0, i as int), active@),
        decreases list@.len() - i,
    {
        proof {
            let longer = list@.subrange(0, i + 1);
            assert(longer.drop_last() =~= list@.subrange(0, i as int));
            assert(longer.last() == list@[i as int]);
        }
        if holds(active, list[i].1) {
            out.push(list[i]);
        }
        i = i + 1;
    }
    assert(list@.subrange(0, i as int) =~= list@);
    out
}

/// Inserting a feed in front of a tail of larger elements.
proof fn lemma_insert_feed(list: Seq<Feed>, feed: Feed, at: int)
    requires
        0 <= at <= list.len(),
        at > 0 ==> list[at - 1].1 <= feed.1,
        forall|j: int| at <= j < list.len() ==> (#[trigger] list[j]).1 > feed.1,
    ensures
        insert_feed(list, feed) == list.insert(at, feed),
    decreases list.len(),
{
    if at == list.len() {
        assert(list.insert(at, feed) =~= list.push(feed));
    } else {
        lemma_insert_feed(list.drop_last(), feed, at);
        assert(list.insert(at, feed) =~= list.drop_last().insert(at, feed).push(list.last()));
    }
}

/// The feeds by ascending element; equal elements keep their order.
fn sort_feeds(list: &Vec<(NodeId, i32)>) -> (r: Vec<(NodeId, i32)>)
    ensures
        r@ == sorted_feeds(list@),
{
    let mut out: Vec<(NodeId, i32)> = Vec::new();
    let mut i: usize = 0;
    assert(list@.subrange(0, 0) =~= out@);
    while i < list.len()
        invariant
            i <= list@.len(),
            out@ == sorted_feeds(list@.subrange(0, i as int)),
        decreases list@.len() - i,
    {
        let feed: (NodeId, i32) = list[i];
        let mut at: usize = out.len();
        while at > 0 && out[at - 1].1 > feed.1
            invariant
                at <= out@.len(),
                forall|j: int| at <= j < out@.len() ==> (#[trigger] out@[j]).1 > feed.1,
            decreases at,
        {
            at = at - 1;
        }
        proof {
            lemma_insert_feed(out@, feed, at as int);
            let longer = list@.subrange(0, i + 1);
            assert(longer.drop_last() =~= list@.subrange(0, i as int));
            assert(longer.last() == feed);
        }
        out.insert(at, feed);
        i = i + 1;
    }
    assert(list@.subrange(0, i as int) =~= list@);
    out
}

/// The row key of an element.
fn key_of(id: &str, element: i32) -> (r: String)
    ensures
        r@ == row_key(id@, element),
{
    if element < 0 {
        return id.to_string();
    }
    let mut chars: Vec<char> = text::chars_of(id);
    chars.push('[');
    let mut digits: Vec<char> = text::decimal_chars(element as u64);
    digits.push(']');
    chars.append(&mut digits);
    text::string_of(&chars)
}

/// Build the input row of `node` at `time` from the memoized upstream
/// tables and the node's own values.
pub fn build_row(
    graph: &Graph,
    memo: &Memo,
    entry: &NodeEntry,
    node: NodeId,
    time: Rational,
) -> (r: NodeValueRow)
    requires
        memo.wf(),
    ensures
        r@ == input_row(
            entry,
            graph::incoming(graph.edge_models(), node),
            memo::tables(memo.history()),
            time,
        ),
{
    let mut row: NodeValueRow = NodeValueRow::new();
    let connections = graph.input_connections(node);
    let ghost models = graph::connection_models(connections@);
    let ghost known = memo::tables(memo.history());
    let core: &NodeCore = &entry.core;
    let mut i: usize = 0;
    while i < core.inputs.len()
        invariant
            i <= core.inputs@.len(),
            core == &entry.core,
            memo.wf(),
            known == memo::tables(memo.history()),
            models == graph::connection_models(connections@),
            row@ == row_of_inputs(entry, models, known, time, i as int),
        decreases core.inputs@.len() - i,
    {
        let id: &str = core.inputs[i].id.as_str();
        assert(id@ == core.input_models()[i as int].id);
        let list = feeds_of(&connections, id);
        if list.len() == 0 {
            row.insert(id.to_string(), core.value_at_time(id, -1, time));
        } else {
            let ghost all = list@;
            let ghost before = row@;
            let ghost active_model = entry.active(id@, time);
            let list: Vec<(NodeId, i32)> = if names_element(&list) {
                let active: Vec<i32> = match &entry.routing {
                    None => Vec::new(),
                    Some(boxed) => boxed.routing.active_elements_at_time(id, time),
                };
                assert(active@ =~= active_model);
                sort_feeds(&retain_active(list, &active))
            } else {
                list
            };
            assert(list@ == arranged(all, active_model));
            let data_type: Option<ValueType> = core.input_data_type(id);
            let mut j: usize = 0;
            assert(list@.subrange(0, 0) =~= Seq::empty());
            while j < list.len()
                invariant
                    j <= list@.len(),
                    core == &entry.core,
                    memo.wf(),
                    known == memo::tables(memo.history()),
                    data_type == (match input::find_input(core.input_models(), id@) {
                        Some(declared) => Some(declared.value_type),
                        None => None,
                    }),
                    row@ == with_feeds(
                        entry,
                        known,
                        id@,
                        list@.subrange(0, j as int),
                        time,
                        before,
                    ),
                decreases list@.len() - j,
            {
                let (from, element) = list[j];
                proof {
                    let longer = list@.subrange(0, j + 1);
                    assert(longer.drop_last() =~= list@.subrange(0, j as int));
                    assert(longer.last() == (from, element));
                }
                let source: NodeId = source_of(entry, from, id, element);
                let upstream_time: Rational = adjusted_time(entry, id, element, time);
                let taken: NodeValue = match memo.get(source, upstream_time) {
                    Some(table) => pick_value(table, data_type),
                    None => NodeValue::Empty,
                };
                row.insert(key_of(id, element), taken);
                j = j + 1;
            }
            assert(list@.subrange(0, j as int) =~= list@);
        }
        i = i + 1;
    }
    row
}

/// The type that the input `id` of a node is declared with.
pub open spec fn declared_type(entry: &NodeEntry, id: Seq<char>) -> Option<ValueType> {
    match input::find_input(entry.core.input_models(), id) {
        Some(declared) => Some(declared.value_type),
        None => None,
    }
}

/// Whether `c` is the only connection of a node that brings the row value
/// called like its input: none other ends at the input itself, and none at
/// an element of another input whose row key happens to read the same.
pub open spec fn feeds_alone(connections: Seq<Connection>, c: Connection) -> bool {
    &&& connections.contains(c)
    &&& c.2 == -1
    &&& forall|j: int|
        0 <= j < connections.len() && row_key((#[trigger] connections[j]).1, connections[j].2)
            == c.1 ==> connections[j] == c
}

/// The feeds of an input are its connections.
proof fn lemma_feeds(connections: Seq<Connection>, id: Seq<char>, feed: Feed)
    ensures
        feeds(connections, id).contains(feed) <==> connections.contains((feed.0, id, feed.1)),
    decreases connections.len(),
{
    let c = (feed.0, id, feed.1);
    if connections.len() > 0 {
        let fewer = connections.drop_last();
        let rest = feeds(fewer, id);
        let all = feeds(connections, id);
        lemma_feeds(fewer, id, feed);
        if connections.contains(c) {
            let i = choose|i: int| 0 <= i < connections.len() && connections[i] == c;
            if i < fewer.len() {
                assert(fewer[i] == c);
                let k = choose|k: int| 0 <= k < rest.len() && rest[k] == feed;
                assert(all[k] == feed);
            } else {
                assert(all.last() == feed);
            }
        }
        if all.contains(feed) {
            let k = choose|k: int| 0 <= k < all.len() && all[k] == feed;
            if k < rest.len() {
                assert(rest[k] == feed);
                let i = choose|i: int| 0 <= i < fewer.len() && fewer[i] == c;
                assert(connections[i] == c);
            } else {
                assert(connections[connections.len() - 1] == c);
            }
        }
    }
}

/// Inserting a feed adds it and nothing else.
proof fn lemma_insert_feed_members(list: Seq<Feed>, feed: Feed, f: Feed)
    ensures
        insert_feed(list, feed).contains(f) <==> list.contains(f) || f == feed,
    decreases list.len(),
{
    let longer = insert_feed(list, feed);
    if list.len() == 0 || list.last().1 <= feed.1 {
        if list.contains(f) {
            let k = choose|k: int| 0 <= k < list.len() && list[k] == f;
            assert(longer[k] == f);
        }
        assert(longer[list.len() as int] == feed);
        if longer.contains(f) && f != feed {
            let k = choose|k: int| 0 <= k < longer.len() && longer[k] == f;
            assert(list[k] == f);
        }
    } else {
        let fewer = list.drop_last();
        let rest = insert_feed(fewer, feed);
        lemma_insert_feed_members(fewer, feed, f);
        if list.contains(f) {
            let k = choose|k: int| 0 <= k < list.len() && list[k] == f;
            if k < fewer.len() {
                assert(fewer[k] == f);
            }
        }
        if rest.contains(f) {
            let k = choose|k: int| 0 <= k < rest.len() && rest[k] == f;
            assert(longer[k] == f);
        }
        assert(longer[rest.len() as int] == list.last());
        if longer.contains(f) {
            let k = choose|k: int| 0 <= k < longer.len() && longer[k] == f;
            if k < rest.len() {
                assert(rest[k] == f);
                if fewer.contains(f) {
                    let j = choose|j: int| 0 <= j < fewer.len() && fewer[j] == f;
                    assert(list[j] == f);
                }
            } else {
                assert(list[list.len() - 1] == f);
            }
        }
    }
}

/// Sorting feeds keeps them all.
proof fn lemma_sorted_feeds_members(list: Seq<Feed>, f: Feed)
    ensures
        sorted_feeds(list).contains(f) <==> list.contains(f),
    decreases list.len(),
{
    if list.len() > 0 {
        let fewer = list.drop_last();
        lemma_sorted_feeds_members(fewer, f);
        lemma_insert_feed_members(sorted_feeds(fewer), list.last(), f);
        if list.contains(f) {
            let k = choose|k: int| 0 <= k < list.len() && list[k] == f;
            if k < fewer.len() {
                assert(fewer[k] == f);
            }
        }
        if fewer.contains(f) {
            let k = choose|k: int| 0 <= k < fewer.len() && fewer[k] == f;
            assert(list[k] == f);
        }
        assert(list[list.len() - 1] == list.last());
    }
}

/// A feed that alone brings a row key brings its value.
proof fn lemma_feed_value(
    entry: &NodeEntry,
    tables: Map<Key, Seq<TableEntry>>,
    id: Seq<char>,
    list: Seq<Feed>,
    time: Rational,
    row: Map<Seq<char>, ValueModel>,
    feed: Feed,
)
    requires
        list.contains(feed),
        forall|j: int|
            0 <= j < list.len() && row_key(id, (#[trigger] list[j]).1) == row_key(id, feed.1)
                ==> list[j] == feed,
    ensures
        ({
            let filled = with_feeds(entry, tables, id, list, time, row);
            let key = row_key(id, feed.1);
            filled.contains_key(key) && filled[key] == pulled(entry, tables, id, feed, time)
        }),
    decreases list.len(),
{
    if list.len() > 0 && row_key(id, list.last().1) != row_key(id, feed.1) {
        let fewer = list.drop_last();
        let k = choose|k: int| 0 <= k < list.len() && list[k] == feed;
        assert(fewer[k] == feed);
        assert forall|j: int|
            0 <= j < fewer.len() && row_key(id, (#[trigger] fewer[j]).1) == row_key(
                id,
                feed.1,
            ) implies fewer[j] == feed by {
            assert(fewer[j] == list[j]);
        }
        lemma_feed_value(entry, tables, id, fewer, time, row, feed);
    } else if list.len() > 0 {
        assert(list[list.len() - 1] == feed);
    }
}

/// Feeds leave the row keys alone that they do not bring.
proof fn lemma_feeds_leave(
    entry: &NodeEntry,
    tables: Map<Key, Seq<TableEntry>>,
    id: Seq<char>,
    list: Seq<Feed>,
    time: Rational,
    row: Map<Seq<char>, ValueModel>,
    key: Seq<char>,
)
    requires
        forall|j: int| 0 <= j < list.len() ==> row_key(id, (#[trigger] list[j]).1) != key,
    ensures
        ({
            let filled = with_feeds(entry, tables, id, list, time, row);
            filled.contains_key(key) == row.contains_key(key) && (row.contains_key(key)
                ==> filled[key] == row[key])
        }),
    decreases list.len(),
{
    if list.len() > 0 {
        let fewer = list.drop_last();
        assert forall|j: int| 0 <= j < fewer.len() implies row_key(id, (#[trigger] fewer[j]).1)
            != key by {
            assert(fewer[j] == list[j]);
        }
        lemma_feeds_leave(entry, tables, id, fewer, time, row, key);
        assert(list[list.len() - 1] == list.last());
    }
}

/// The feeds that enter a row are the connections of the input, where the
/// node does not pick elements.
proof fn lemma_arranged(connections: Seq<Connection>, id: Seq<char>, active: Seq<i32>, feed: Feed)
    requires
        active.len() == 0,
    ensures
        arranged(feeds(connections, id), active).contains(feed) <==> connections.contains(
            (feed.0, id, feed.1),
        ),
{
    lemma_feeds(connections, id, feed);
    lemma_sorted_feeds_members(feeds(connections, id), feed);
}

/// The first inputs of a node bring the value of a connection that feeds
/// its input alone.
proof fn lemma_row_of_inputs(
    entry: &NodeEntry,
    connections: Seq<Connection>,
    tables: Map<Key, Seq<TableEntry>>,
    time: Rational,
    upto: int,
    c: Connection,
    at: int,
)
    requires
        feeds_alone(connections, c),
        0 <= at < upto <= entry.core.input_models().len(),
        entry.core.input_models()[at].id == c.1,
        forall|id: Seq<char>| (#[trigger] entry.active(id, time)).len() == 0,
    ensures
        ({
            let row = row_of_inputs(entry, connections, tables, time, upto);
            row.contains_key(c.1) && row[c.1] == pulled(
                entry,
                tables,
                c.1,
                (c.0, c.2),
                time,
            )
        }),
    decreases upto,
{
    let feed = (c.0, c.2);
    let id = entry.core.input_models()[upto - 1].id;
    let before = row_of_inputs(entry, connections, tables, time, upto - 1);
    let list = arranged(feeds(connections, id), entry.active(id, time));
    assert(entry.active(id, time).len() == 0);
    assert forall|j: int| 0 <= j < list.len() && row_key(id, (#[trigger] list[j]).1) == c.1 implies id
        == c.1 && list[j] == feed by {
        assert(list.contains(list[j]));
        lemma_arranged(connections, id, entry.active(id, time), list[j]);
        let d = (list[j].0, id, list[j].1);
        let k = choose|k: int| 0 <= k < connections.len() && connections[k] == d;
        assert(row_key(connections[k].1, connections[k].2) == c.1);
    }
    if id == c.1 {
        lemma_arranged(connections, id, entry.active(id, time), feed);
        lemma_feeds(connections, id, feed);
        assert(feeds(connections, id).len() > 0);
        lemma_feed_value(entry, tables, id, list, time, before, feed);
    } else {
        assert(at < upto - 1);
        lemma_row_of_inputs(entry, connections, tables, time, upto - 1, c, at);
        if feeds(connections, id).len() > 0 {
            lemma_feeds_leave(entry, tables, id, list, time, before, c.1);
        }
    }
}

/// A connection that feeds a declared input alone brings its value to the
/// row.
pub proof fn lemma_row_value(
    entry: &NodeEntry,
    connections: Seq<Connection>,
    tables: Map<Key, Seq<TableEntry>>,
    time: Rational,
    c: Connection,
)
    requires
        feeds_alone(connections, c),
        declared_type(entry, c.1) is Some,
        forall|id: Seq<char>| (#[trigger] entry.active(id, time)).len() == 0,
    ensures
        ({
            let row = input_row(entry, connections, tables, time);
            row.contains_key(c.1) && row[c.1] == pulled(
                entry,
                tables,
                c.1,
                (c.0, c.2),
                time,
            )
        }),
{
    let at = lemma_declared_index(entry.core.input_models(), c.1);
    lemma_row_of_inputs(
        entry,
        connections,
        tables,
        time,
        entry.core.input_models().len() as int,
        c,
        at,
    );
}

/// Where a declared input stands.
proof fn lemma_declared_index(models: Seq<input::InputModel>, id: Seq<char>) -> (at: int)
    requires
        input::find_input(models, id) is Some,
    ensures
        0 <= at < models.len(),
        models[at].id == id,
    decreases models.len(),
{
    if models[0].id == id {
        0
    } else {
        let rest = lemma_declared_index(models.skip(1), id);
        assert(models.skip(1)[rest] == models[rest + 1]);
        rest + 1
    }
}

/// An input without a connection has the node's own value in the row: what
/// its keyframes give at the time where it has some, else what was set on
/// it, else its default.
pub proof fn law_unconnected_inputs_take_the_nodes_own_values(
    graph: &Graph,
    memo: &Memo,
    entry: &NodeEntry,
    node: NodeId,
    time: Rational,
    row: NodeValueRow,
    at: int,
)
    requires
        memo.wf(),
        call_ensures(build_row, (graph, memo, entry, node, time), row),
        0 <= at < entry.core.inputs@.len(),
        forall|k: int|
            0 <= k < graph.edge_models().len() && (#[trigger] graph.edge_models()[k]).to == node
                ==> graph.edge_models()[k].input != entry.core.inputs@[at].id@ && row_key(
                graph.edge_models()[k].input,
                graph.edge_models()[k].element,
            ) != entry.core.inputs@[at].id@,
    ensures
        row@.contains_key(entry.core.inputs@[at].id@),
        node::is_own_value(
            &entry.core,
            entry.core.inputs@[at].id@,
            -1i32,
            time,
            row@[entry.core.inputs@[at].id@],
        ),
{
    let id = entry.core.inputs@[at].id@;
    let connections = graph::incoming(graph.edge_models(), node);
    assert(entry.core.input_models()[at].id == id);
    assert forall|j: int| 0 <= j < connections.len() implies (#[trigger] connections[j]).1 != id
        && row_key(connections[j].1, connections[j].2) != id by {
        assert(connections.contains(connections[j]));
        graph::lemma_connection_is_edge(graph.edge_models(), node, connections[j]);
        let c = connections[j];
        let e = graph::EdgeModel { from: c.0, to: node, input: c.1, element: c.2 };
        let k = choose|k: int|
            0 <= k < graph.edge_models().len() && graph.edge_models()[k] == e;
        assert(graph.edge_models()[k].to == node);
    }
    lemma_unconnected_value(
        entry,
        connections,
        memo::tables(memo.history()),
        time,
        entry.core.input_models().len() as int,
        id,
        at,
    );
    node::lemma_own_value(&entry.core, id, -1i32, time);
}

/// The value of an input that nothing is connected to.
pub proof fn lemma_unconnected_value(
    entry: &NodeEntry,
    connections: Seq<Connection>,
    tables: Map<Key, Seq<TableEntry>>,
    time: Rational,
    upto: int,
    id: Seq<char>,
    at: int,
)
    requires
        0 <= at < upto <= entry.core.input_models().len(),
        entry.core.input_models()[at].id == id,
        forall|j: int|
            0 <= j < connections.len() ==> (#[trigger] connections[j]).1 != id && row_key(
                connections[j].1,
                connections[j].2,
            ) != id,
    ensures
        ({
            let row = row_of_inputs(entry, connections, tables, time, upto);
            row.contains_key(id) && row[id] == entry.core.value_at(id, -1i32, time)
        }),
    decreases upto,
{
    let next = entry.core.input_models()[upto - 1].id;
    let before = row_of_inputs(entry, connections, tables, time, upto - 1);
    let list = feeds(connections, next);
    if next == id {
        if list.len() > 0 {
            assert(list.contains(list[0]));
            lemma_feeds(connections, next, list[0]);
            let k = choose|k: int|
                0 <= k < connections.len() && connections[k] == (list[0].0, next, list[0].1);
            assert(connections[k].1 != id);
        }
    } else {
        lemma_unconnected_value(entry, connections, tables, time, upto - 1, id, at);
        if list.len() > 0 {
            let kept = arranged(list, entry.active(next, time));
            assert forall|j: int| 0 <= j < kept.len() implies row_key(next, (#[trigger] kept[j]).1)
                != id by {
                assert(kept.contains(kept[j]));
                lemma_arranged_from(connections, next, entry.active(next, time), kept[j]);
                let c = (kept[j].0, next, kept[j].1);
                let k = choose|k: int| 0 <= k < connections.len() && connections[k] == c;
                assert(connections[k].1 == next);
            }
            lemma_feeds_leave(entry, tables, next, kept, time, before, id);
        }
    }
}

/// The feeds that are kept are feeds.
proof fn lemma_active_from(list: Seq<Feed>, active: Seq<i32>, feed: Feed)
    requires
        active_feeds(list, active).contains(feed),
    ensures
        list.contains(feed),
        active.len() > 0 ==> active.contains(feed.1),
    decreases list.len(),
{
    if active.len() > 0 && list.len() > 0 {
        let fewer = list.drop_last();
        let kept = active_feeds(list, active);
        let k = choose|k: int| 0 <= k < kept.len() && kept[k] == feed;
        if k < active_feeds(fewer, active).len() {
            assert(active_feeds(fewer, active)[k] == feed);
            lemma_active_from(fewer, active, feed);
            let j = choose|j: int| 0 <= j < fewer.len() && fewer[j] == feed;
            assert(list[j] == feed);
        } else {
            assert(list[list.len() - 1] == feed);
        }
    }
}

/// The feeds that enter a row are connections of the input.
proof fn lemma_arranged_from(
    connections: Seq<Connection>,
    id: Seq<char>,
    active: Seq<i32>,
    feed: Feed,
)
    requires
        arranged(feeds(connections, id), active).contains(feed),
    ensures
        connections.contains((feed.0, id, feed.1)),
        has_element(feeds(connections, id)) && active.len() > 0 ==> active.contains(feed.1),
{
    let list = feeds(connections, id);
    if has_element(list) {
        lemma_sorted_feeds_members(active_feeds(list, active), feed);
        lemma_active_from(list, active, feed);
    }
    lemma_feeds(connections, id, feed);
}

/// The last feed of an element.
spec fn last_feed(list: Seq<Feed>, element: i32) -> Option<Feed>
    decreases list.len(),
{
    if list.len() == 0 {
        None
    } else if list.last().1 == element {
        Some(list.last())
    } else {
        last_feed(list.drop_last(), element)
    }
}

/// Inserting a feed makes it the last one of its element, and of no other.
proof fn lemma_inserted_last(list: Seq<Feed>, feed: Feed, element: i32)
    ensures
        last_feed(insert_feed(list, feed), element) == (if feed.1 == element {
            Some(feed)
        } else {
            last_feed(list, element)
        }),
    decreases list.len(),
{
    let longer = insert_feed(list, feed);
    if list.len() == 0 || list.last().1 <= feed.1 {
        assert(longer.drop_last() =~= list);
    } else {
        lemma_inserted_last(list.drop_last(), feed, element);
        assert(longer.drop_last() =~= insert_feed(list.drop_last(), feed));
    }
}

/// Sorting keeps the last feed of every element.
proof fn lemma_sorted_last(list: Seq<Feed>, element: i32)
    ensures
        last_feed(sorted_feeds(list), element) == last_feed(list, element),
    decreases list.len(),
{
    if list.len() > 0 {
        lemma_sorted_last(list.drop_last(), element);
        lemma_inserted_last(sorted_feeds(list.drop_last()), list.last(), element);
    }
}

/// Keeping the elements that count keeps their last feeds.
proof fn lemma_active_last(list: Seq<Feed>, active: Seq<i32>, element: i32)
    requires
        active.len() == 0 || active.contains(element),
    ensures
        last_feed(active_feeds(list, active), element) == last_feed(list, element),
    decreases list.len(),
{
    if active.len() > 0 && list.len() > 0 {
        let fewer = list.drop_last();
        lemma_active_last(fewer, active, element);
        let kept = active_feeds(list, active);
        if active.contains(list.last().1) {
            assert(kept.drop_last() =~= active_feeds(fewer, active));
        }
    }
}

/// The last feed of an element is its last connection.
proof fn lemma_feeds_last(connections: Seq<Connection>, j: int)
    requires
        0 <= j < connections.len(),
        forall|k: int|
            j < k < connections.len() ==> !((#[trigger] connections[k]).1 == connections[j].1
                && connections[k].2 == connections[j].2),
    ensures
        last_feed(feeds(connections, connections[j].1), connections[j].2) == Some(
            (connections[j].0, connections[j].2),
        ),
    decreases connections.len(),
{
    let c = connections[j];
    let fewer = connections.drop_last();
    let list = feeds(connections, c.1);
    if j == connections.len() - 1 {
        assert(list.last() == (c.0, c.2));
    } else {
        assert(fewer[j] == c);
        assert forall|k: int| j < k < fewer.len() implies !((#[trigger] fewer[k]).1 == c.1
            && fewer[k].2 == c.2) by {
            assert(fewer[k] == connections[k]);
        }
        lemma_feeds_last(fewer, j);
        let last = connections[connections.len() - 1];
        if last.1 == c.1 {
            assert(list.drop_last() =~= feeds(fewer, c.1));
            assert(list.last().1 == last.2);
        }
    }
}

/// The last feed of an element brings its value, where no other element
/// shares its row key.
proof fn lemma_last_feed_value(
    entry: &NodeEntry,
    tables: Map<Key, Seq<TableEntry>>,
    id: Seq<char>,
    list: Seq<Feed>,
    time: Rational,
    row: Map<Seq<char>, ValueModel>,
    feed: Feed,
)
    requires
        last_feed(list, feed.1) == Some(feed),
        forall|j: int|
            0 <= j < list.len() && row_key(id, (#[trigger] list[j]).1) == row_key(id, feed.1)
                ==> list[j].1 == feed.1,
    ensures
        ({
            let filled = with_feeds(entry, tables, id, list, time, row);
            let key = row_key(id, feed.1);
            filled.contains_key(key) && filled[key] == pulled(entry, tables, id, feed, time)
        }),
    decreases list.len(),
{
    if list.len() > 0 {
        assert(list[list.len() - 1] == list.last());
        if list.last().1 != feed.1 {
            let fewer = list.drop_last();
            assert forall|j: int|
                0 <= j < fewer.len() && row_key(id, (#[trigger] fewer[j]).1) == row_key(
                    id,
                    feed.1,
                ) implies fewer[j].1 == feed.1 by {
                assert(fewer[j] == list[j]);
            }
            lemma_last_feed_value(entry, tables, id, fewer, time, row, feed);
        }
    }
}

/// Whether connection `j` is the last one into its input element, and no
/// connection into another element brings the same row key.
pub open spec fn brings(connections: Seq<Connection>, j: int) -> bool {
    &&& 0 <= j < connections.len()
    &&& forall|k: int|
        0 <= k < connections.len() && row_key((#[trigger] connections[k]).1, connections[k].2)
            == row_key(connections[j].1, connections[j].2) ==> k <= j && connections[k].1
            == connections[j].1 && connections[k].2 == connections[j].2
}

/// The first inputs of a node bring the value of a connection.
proof fn lemma_brought_value(
    entry: &NodeEntry,
    connections: Seq<Connection>,
    tables: Map<Key, Seq<TableEntry>>,
    time: Rational,
    upto: int,
    j: int,
    at: int,
)
    requires
        brings(connections, j),
        0 <= at < upto <= entry.core.input_models().len(),
        entry.core.input_models()[at].id == connections[j].1,
        forall|m: int|
            0 <= m < entry.core.input_models().len() && (
            #[trigger] entry.core.input_models()[m]).id == row_key(
                connections[j].1,
                connections[j].2,
            ) ==> entry.core.input_models()[m].id == connections[j].1,
        ({
            let active = entry.active(connections[j].1, time);
            active.len() == 0 || active.contains(connections[j].2) || !has_element(
                feeds(connections, connections[j].1),
            )
        }),
    ensures
        ({
            let c = connections[j];
            let key = row_key(c.1, c.2);
            let row = row_of_inputs(entry, connections, tables, time, upto);
            row.contains_key(key) && row[key] == pulled(entry, tables, c.1, (c.0, c.2), time)
        }),
    decreases upto,
{
    let c = connections[j];
    let key = row_key(c.1, c.2);
    let feed = (c.0, c.2);
    let id = entry.core.input_models()[upto - 1].id;
    let before = row_of_inputs(entry, connections, tables, time, upto - 1);
    let active = entry.active(id, time);
    let all = feeds(connections, id);
    let list = arranged(all, active);
    assert forall|q: int| 0 <= q < list.len() && row_key(id, (#[trigger] list[q]).1) == key implies id
        == c.1 && list[q].1 == c.2 by {
        assert(list.contains(list[q]));
        lemma_arranged_from(connections, id, active, list[q]);
        let d = (list[q].0, id, list[q].1);
        let k = choose|k: int| 0 <= k < connections.len() && connections[k] == d;
        assert(row_key(connections[k].1, connections[k].2) == key);
    }
    if id == c.1 {
        assert forall|k: int| j < k < connections.len() implies !((
        #[trigger] connections[k]).1 == c.1 && connections[k].2 == c.2) by {
            if connections[k].1 == c.1 && connections[k].2 == c.2 {
                assert(row_key(connections[k].1, connections[k].2) == key);
            }
        }
        lemma_feeds_last(connections, j);
        if has_element(all) {
            lemma_active_last(all, active, c.2);
            lemma_sorted_last(active_feeds(all, active), c.2);
        }
        assert(all.len() > 0);
        lemma_last_feed_value(entry, tables, id, list, time, before, feed);
    } else {
        lemma_brought_value(entry, connections, tables, time, upto - 1, j, at);
        if all.len() > 0 {
            lemma_feeds_leave(entry, tables, id, list, time, before, key);
        } else {
            assert(id != key);
        }
    }
}

/// A connected input has in the row what it picks from the table of the
/// node that it pulls, at the time that it pulls it, and no value where
/// that node was not evaluated. An element of an array has its own row
/// value, under the name of the input with the element in brackets. Of two
/// edges into the same element the last one counts.
pub proof fn law_connected_inputs_take_what_they_pull(
    graph: &Graph,
    memo: &Memo,
    entry: &NodeEntry,
    node: NodeId,
    time: Rational,
    row: NodeValueRow,
    j: int,
    key: Seq<char>,
)
    requires
        memo.wf(),
        call_ensures(build_row, (graph, memo, entry, node, time), row),
        brings(graph::incoming(graph.edge_models(), node), j),
        ({
            let connections = graph::incoming(graph.edge_models(), node);
            let c = connections[j];
            let active = entry.active(c.1, time);
            &&& key == (if c.2 >= 0 {
                c.1 + seq!['['] + text::decimal(c.2 as nat) + seq![']']
            } else {
                c.1
            })
            &&& declared_type(entry, c.1) is Some
            &&& forall|m: int|
                0 <= m < entry.core.inputs@.len() && (#[trigger] entry.core.inputs@[m]).id@ == key
                    ==> key == c.1
            &&& active.len() == 0 || active.contains(c.2)
        }),
    ensures
        ({
            let c = graph::incoming(graph.edge_models(), node)[j];
            let known = memo::tables(memo.history());
            let source = (entry.source(c), entry.pull_time(c.1, c.2, time));
            &&& row@.contains_key(key)
            &&& known.contains_key(source) ==> forall|r: NodeValue, table: NodeValueTable|
                table@ == known[source] && #[trigger] call_ensures(
                    pick_value,
                    (&table, declared_type(entry, c.1)),
                    r,
                ) ==> row@[key] == r@
            &&& !known.contains_key(source) ==> row@[key] == ValueModel::Empty
        }),
{
    let connections = graph::incoming(graph.edge_models(), node);
    let c = connections[j];
    assert(key =~= row_key(c.1, c.2));
    assert forall|m: int|
        0 <= m < entry.core.input_models().len() && (#[trigger] entry.core.input_models()[m]).id
            == key implies entry.core.input_models()[m].id == c.1 by {
        assert(entry.core.inputs@[m].id@ == key);
    }
    let at = lemma_declared_index(entry.core.input_models(), c.1);
    lemma_brought_value(
        entry,
        connections,
        memo::tables(memo.history()),
        time,
        entry.core.input_models().len() as int,
        j,
        at,
    );
    assert((c.0, c.1, c.2) == c);
}

/// An element of an array input that does not count at the time has no row
/// value.
pub proof fn law_inactive_elements_have_no_value(
    graph: &Graph,
    memo: &Memo,
    entry: &NodeEntry,
    node: NodeId,
    time: Rational,
    row: NodeValueRow,
    id: Seq<char>,
    element: i32,
    key: Seq<char>,
)
    requires
        memo.wf(),
        call_ensures(build_row, (graph, memo, entry, node, time), row),
        element >= 0,
        entry.active(id, time).len() > 0,
        !entry.active(id, time).contains(element),
        key == id + seq!['['] + text::decimal(element as nat) + seq![']'],
        forall|m: int|
            0 <= m < entry.core.inputs@.len() ==> (#[trigger] entry.core.inputs@[m]).id@ != key,
        forall|j: int|
            0 <= j < graph::incoming(graph.edge_models(), node).len() && row_key(
                (#[trigger] graph::incoming(graph.edge_models(), node)[j]).1,
                graph::incoming(graph.edge_models(), node)[j].2,
            ) == key ==> graph::incoming(graph.edge_models(), node)[j].1 == id && graph::incoming(
                graph.edge_models(),
                node,
            )[j].2 == element,
    ensures
        !row@.contains_key(key),
{
    lemma_inactive(
        entry,
        graph::incoming(graph.edge_models(), node),
        memo::tables(memo.history()),
        time,
        entry.core.input_models().len() as int,
        id,
        element,
        key,
    );
}

proof fn lemma_inactive(
    entry: &NodeEntry,
    connections: Seq<Connection>,
    tables: Map<Key, Seq<TableEntry>>,
    time: Rational,
    upto: int,
    id: Seq<char>,
    element: i32,
    key: Seq<char>,
)
    requires
        element >= 0,
        entry.active(id, time).len() > 0,
        !entry.active(id, time).contains(element),
        upto <= entry.core.input_models().len(),
        forall|m: int|
            0 <= m < entry.core.inputs@.len() ==> (#[trigger] entry.core.inputs@[m]).id@ != key,
        forall|j: int|
            0 <= j < connections.len() && row_key(
                (#[trigger] connections[j]).1,
                connections[j].2,
            ) == key ==> connections[j].1 == id && connections[j].2 == element,
    ensures
        !row_of_inputs(entry, connections, tables, time, upto).contains_key(key),
    decreases upto,
{
    if upto > 0 {
        let next = entry.core.input_models()[upto - 1].id;
        assert(entry.core.inputs@[upto - 1].id@ == next);
        let before = row_of_inputs(entry, connections, tables, time, upto - 1);
        let all = feeds(connections, next);
        lemma_inactive(entry, connections, tables, time, upto - 1, id, element, key);
        if all.len() > 0 {
            let active = entry.active(next, time);
            let list = arranged(all, active);
            assert forall|q: int| 0 <= q < list.len() implies row_key(next, (#[trigger] list[q]).1)
                != key by {
                if row_key(next, list[q].1) == key {
                    assert(list.contains(list[q]));
                    lemma_arranged_from(connections, next, active, list[q]);
                    let d = (list[q].0, next, list[q].1);
                    let k = choose|k: int| 0 <= k < connections.len() && connections[k] == d;
                    assert(connections[k].2 == element);
                    lemma_feeds(connections, next, list[q]);
                    let p = choose|p: int| 0 <= p < all.len() && all[p] == list[q];
                    assert(has_element(all));
                }
            }
            lemma_feeds_leave(entry, tables, next, list, time, before, key);
        }
    }
}

/// Whether `j` is the place of the most recent value of a type in a table.
pub open spec fn is_latest(table: Seq<TableEntry>, j: int, kind: ValueType) -> bool {
    &&& 0 <= j < table.len()
    &&& table[j].0 == kind
    &&& forall|k: int| j < k < table.len() ==> (#[trigger] table[k]).0 != kind
}

/// The most recent value of a type stands behind all others of it.
pub proof fn lemma_latest(table: Seq<TableEntry>, kind: ValueType, j: int)
    ensures
        is_latest(table, j, kind) ==> value::last_of(table, kind) == Some(table[j].1),
        (forall|k: int| 0 <= k < table.len() ==> (#[trigger] table[k]).0 != kind)
            ==> value::last_of(table, kind) is None,
    decreases table.len(),
{
    if table.len() > 0 {
        let fewer = table.drop_last();
        assert(table[table.len() - 1] == table.last());
        if table.last().0 != kind {
            lemma_latest(fewer, kind, j);
            if is_latest(table, j, kind) {
                assert forall|k: int| j < k < fewer.len() implies (#[trigger] fewer[k]).0
                    != kind by {
                    assert(fewer[k] == table[k]);
                }
                assert(is_latest(fewer, j, kind));
            }
            if forall|k: int| 0 <= k < table.len() ==> (#[trigger] table[k]).0 != kind {
                assert forall|k: int| 0 <= k < fewer.len() implies (#[trigger] fewer[k]).0
                    != kind by {
                    assert(fewer[k] == table[k]);
                }
            }
        }
    }
}

/// A texture input takes the most recent texture of a table, and no value
/// from a table without one.
pub proof fn law_texture_inputs_take_the_latest_texture(
    table: &NodeValueTable,
    j: int,
    r: NodeValue,
)
    requires
        call_ensures(pick_value, (table, Some(ValueType::Texture)), r),
    ensures
        is_latest(table@, j, ValueType::Texture) ==> r@ == table@[j].1,
        (forall|k: int| 0 <= k < table@.len() ==> (#[trigger] table@[k]).0 != ValueType::Texture)
            ==> r@ == ValueModel::Empty,
{
    lemma_latest(table@, ValueType::Texture, j);
    reveal_with_fuel(first_of, 2);
    assert(seq![ValueType::Texture].skip(1) =~= Seq::empty());
}

/// Any other input takes the most recent value of a table of the type that
/// comes first in this order: a float, an integer, a color, a vector of
/// two, three or four, a boolean, a rational, a text, a combo, a string
/// combo, a texture.
pub proof fn law_other_inputs_take_the_first_type_there_is(
    table: &NodeValueTable,
    data_type: Option<ValueType>,
    order: Seq<ValueType>,
    n: int,
    j: int,
    r: NodeValue,
)
    requires
        data_type != Some(ValueType::Texture),
        call_ensures(pick_value, (table, data_type), r),
        order == seq![
            ValueType::Float,
            ValueType::Int,
            ValueType::Color,
            ValueType::Vec2,
            ValueType::Vec3,
            ValueType::Vec4,
            ValueType::Boolean,
            ValueType::Rational,
            ValueType::Text,
            ValueType::Combo,
            ValueType::StrCombo,
            ValueType::Texture,
        ],
        0 <= n <= 12,
        forall|m: int, k: int|
            0 <= m < n && 0 <= k < table@.len() ==> (#[trigger] table@[k]).0
                != #[trigger] order[m],
    ensures
        n < 12 && is_latest(table@, j, order[n]) ==> r@ == table@[j].1,
        n == 12 ==> r@ == ValueModel::Empty,
{
    assert(order == scalar_order());
    lemma_first_type(table@, order, n, j);
}

proof fn lemma_first_type(table: Seq<TableEntry>, order: Seq<ValueType>, n: int, j: int)
    requires
        0 <= n <= order.len(),
        forall|m: int, k: int|
            0 <= m < n && 0 <= k < table.len() ==> (#[trigger] table[k]).0 != #[trigger] order[m],
    ensures
        n < order.len() && is_latest(table, j, order[n]) ==> first_of(table, order) == table[j].1,
        n == order.len() ==> first_of(table, order) == ValueModel::Empty,
    decreases order.len(),
{
    if order.len() > 0 {
        lemma_latest(table, order[0], j);
        if n > 0 {
            assert forall|k: int| 0 <= k < table.len() implies (#[trigger] table[k]).0
                != order[0] by {}
            let rest = order.skip(1);
            assert forall|m: int, k: int| 0 <= m < n - 1 && 0 <= k < table.len() implies (
            #[trigger] table[k]).0 != #[trigger] rest[m] by {
                assert(rest[m] == order[m + 1]);
            }
            lemma_first_type(table, rest, n - 1, j);
        }
    }
}

/// A node without routing takes every edge from where it starts, at its own
/// time. One with routing takes the output that the routing names, if it
/// names one, at the start of the range that the routing adjusts.
pub proof fn law_routing_decides_where_and_when(
    entry: &NodeEntry,
    from: NodeId,
    name: &str,
    element: i32,
    time: Rational,
    source: NodeId,
    pulled_at: Rational,
)
    requires
        call_ensures(source_of, (entry, from, name, element), source),
        call_ensures(adjusted_time, (entry, name, element, time), pulled_at),
    ensures
        entry.routing is None ==> source == from && pulled_at == time,
        entry.routing matches Some(r) ==> {
            &&& r.routing.spec_output(&entry.core, name@, element) matches Some(other) ==> source
                == other
            &&& r.routing.spec_output(&entry.core, name@, element) is None ==> source == from
            &&& pulled_at == r.routing.spec_time(
                &entry.core,
                name@,
                element,
                TimeRange { start: time, end: time },
                true,
            ).start
        },
{
}

/// Whether a row key belongs to an input that nothing is connected to, or
/// to a connection of a declared input.
pub open spec fn has_cause(
    inputs: Seq<Input>,
    connections: Seq<Connection>,
    key: Seq<char>,
) -> bool {
    ||| exists|at: int|
        0 <= at < inputs.len() && (#[trigger] inputs[at]).id@ == key && forall|j: int|
            0 <= j < connections.len() ==> (#[trigger] connections[j]).1 != key
    ||| exists|at: int, j: int|
        0 <= at < inputs.len() && 0 <= j < connections.len() && (#[trigger] inputs[at]).id@ == (
        #[trigger] connections[j]).1 && key == row_key(connections[j].1, connections[j].2)
}

/// A row holds nothing but the own values of inputs that nothing is
/// connected to, and what the connections of declared inputs bring. So an
/// input with connections has no own value there.
pub proof fn law_rows_hold_inputs_alone(
    graph: &Graph,
    memo: &Memo,
    entry: &NodeEntry,
    node: NodeId,
    time: Rational,
    row: NodeValueRow,
    key: Seq<char>,
)
    requires
        memo.wf(),
        call_ensures(build_row, (graph, memo, entry, node, time), row),
        row@.contains_key(key),
    ensures
        has_cause(entry.core.inputs@, graph::incoming(graph.edge_models(), node), key),
{
    lemma_row_keys(
        entry,
        graph::incoming(graph.edge_models(), node),
        memo::tables(memo.history()),
        time,
        entry.core.input_models().len() as int,
        key,
    );
}

proof fn lemma_row_keys(
    entry: &NodeEntry,
    connections: Seq<Connection>,
    tables: Map<Key, Seq<TableEntry>>,
    time: Rational,
    upto: int,
    key: Seq<char>,
)
    requires
        upto <= entry.core.input_models().len(),
        row_of_inputs(entry, connections, tables, time, upto).contains_key(key),
    ensures
        has_cause(entry.core.inputs@, connections, key),
    decreases upto,
{
    if upto > 0 {
        let id = entry.core.input_models()[upto - 1].id;
        assert(entry.core.inputs@[upto - 1].id@ == id);
        let before = row_of_inputs(entry, connections, tables, time, upto - 1);
        let all = feeds(connections, id);
        if before.contains_key(key) {
            lemma_row_keys(entry, connections, tables, time, upto - 1, key);
        } else if all.len() == 0 {
            assert(key == id);
            assert forall|j: int| 0 <= j < connections.len() implies (#[trigger] connections[j]).1
                != key by {
                let c = connections[j];
                if c.1 == key {
                    assert(connections.contains((c.0, id, c.2)));
                    lemma_feeds(connections, id, (c.0, c.2));
                    assert(all.contains((c.0, c.2)));
                }
            }
        } else {
            let active = entry.active(id, time);
            let list = arranged(all, active);
            if forall|q: int| 0 <= q < list.len() ==> row_key(id, (#[trigger] list[q]).1) != key {
                lemma_feeds_leave(entry, tables, id, list, time, before, key);
            } else {
                let q = choose|q: int|
                    0 <= q < list.len() && row_key(id, (#[trigger] list[q]).1) == key;
                assert(list.contains(list[q]));
                lemma_arranged_from(connections, id, active, list[q]);
                let d = (list[q].0, id, list[q].1);
                let j = choose|j: int| 0 <= j < connections.len() && connections[j] == d;
                assert(entry.core.inputs@[upto - 1].id@ == connections[j].1);
            }
        }
    }
}

/// A row key names its input, and for an element of an array its number in
/// brackets behind it.
pub proof fn law_row_keys_name_the_element(id: Seq<char>, element: i32)
    ensures
        element < 0 ==> row_key(id, element) == id,
        element >= 0 ==> row_key(id, element) == id + seq!['['] + text::decimal(element as nat)
            + seq![']'],
{
    if element >= 0 {
        assert(row_key(id, element) =~= id + seq!['['] + text::decimal(element as nat) + seq![']']);
    }
}

} // verus!
