//! The built-in node types, values and jobs.

use std::sync::Arc;

use oak_node::double::Double;
use oak_node::factory::{Factory, NodeKind};
use oak_node::graph::Graph;
use oak_node::handle::{boxed_shader, boxed_texture, make_owned, Boxed, CHandle, Texture};
use oak_node::id::NodeId;
use oak_node::input::flags;
use oak_node::jobs::{
    cache_job, color_transform_job, footage_job, job_ref, plugin_job, shader_job, CacheJobPayload,
    ColorProcessor, ColorTransformJobPayload, FootageJobPayload, Job, PluginJobPayload,
    ShaderJobPayload,
};
use oak_node::node::NodeBehavior;
use oak_node::nodes::graphendpoints::{
    GRAPH_INPUT_TYPE_ID, GRAPH_OUTPUT_INPUT, GRAPH_OUTPUT_TYPE_ID,
};
use oak_node::nodes::register_all;
use oak_node::rational::Rational;
use oak_node::rows::pick_value;
use oak_node::traverser::{EvalRequest, Traverser};
use oak_node::value::{NodeValue, NodeValueRow, NodeValueTable, ValueType};
use oak_node::walk::Offline;

#[test]
fn built_in_types_are_found_by_their_ids() {
    let factory = register_all();
    for entry in &factory.entries {
        assert_eq!(factory.find(entry.type_id), Some(entry.kind));
        let (_, made) = factory.create_any(entry.type_id).expect("creates");
        assert_eq!(made.type_id(), entry.type_id);
        assert_eq!(made.name(), entry.name);
    }
    assert_eq!(factory.entries.len(), 23);
    assert_eq!(factory.find("org.olivevideoeditor.Olive.nothing"), None);
    assert!(factory.create_any("").is_none());
    assert!(Factory::install(Vec::new()).find("org.olivevideoeditor.Olive.erode").is_none());
}

#[test]
fn built_in_nodes_run_in_a_graph() {
    let factory = register_all();
    let mut graph = Graph::new();
    let (core, source) = factory.create_any("org.olivevideoeditor.Olive.ramp").expect("creates");
    let ramp = graph.add_built_in(core, source);
    let (core, effect) = factory.create_any("org.olivevideoeditor.Olive.invert").expect("creates");
    assert_eq!(effect.kind(), NodeKind::Invert);
    assert!(effect.duplicate(&core).is_some());
    let invert = graph.add_built_in(core, effect);
    graph.connect(ramp, invert, "tex_in", -1).expect("ramp -> invert");
    let (input, output) = graph.ensure_endpoints();
    graph.disconnect(input, output, GRAPH_OUTPUT_INPUT, -1);
    graph.connect(invert, output, GRAPH_OUTPUT_INPUT, -1).expect("invert -> output");
    let request = EvalRequest::new(output, Rational::zero());
    let table = Traverser::new().evaluate(&graph, &request, &mut Offline::new()).expect("evaluates");
    let frame = table.get(ValueType::Texture).expect("a frame");
    let NodeValue::Texture(handle) = frame else {
        panic!("no texture: {frame:?}");
    };
    let pass = boxed_shader(handle).or(shader_job(handle)).expect("a shader pass");
    assert_eq!(pass.type_id, "org.olivevideoeditor.Olive.invert");
}

#[test]
fn endpoints_cannot_be_copied() {
    let factory = register_all();
    for id in [GRAPH_INPUT_TYPE_ID, GRAPH_OUTPUT_TYPE_ID] {
        let (core, node) = factory.create_any(id).expect("creates");
        assert!(node.duplicate(&core).is_none());
    }
}

#[test]
fn nodes_are_listed_where_they_are_registered() {
    let factory = register_all();
    for entry in &factory.entries {
        let (_, made) = factory.create_any(entry.type_id).expect("creates");
        assert_eq!(made.categories(), entry.categories, "{}", entry.type_id);
    }
}

#[test]
fn effect_inputs_are_textures_without_keyframes() {
    let factory = register_all();
    let mut with_effect_input = 0;
    for entry in &factory.entries {
        let (core, _) = factory.create_any(entry.type_id).expect("creates");
        if !core.effect_input.is_empty() {
            with_effect_input += 1;
            assert_eq!(core.input_data_type(&core.effect_input), Some(ValueType::Texture));
        }
        for input in &core.inputs {
            if input.value_type == ValueType::Texture {
                assert_ne!(input.flags & flags::NOT_KEYFRAMABLE, 0, "{}", input.id);
                assert_eq!(input.default, NodeValue::Empty, "{}", input.id);
            }
        }
    }
    assert_eq!(with_effect_input, 18);
}

#[test]
fn type_ids_are_unique() {
    let entries = register_all().entries;
    for (i, a) in entries.iter().enumerate() {
        for b in &entries[i + 1..] {
            assert_ne!(a.type_id, b.type_id);
        }
    }
}

#[test]
fn endpoints_come_after_the_other_types() {
    let entries = register_all().entries;
    let kinds: Vec<NodeKind> = entries.iter().map(|e| e.kind).collect();
    assert_eq!(kinds[21..], [NodeKind::GraphInput, NodeKind::GraphOutput]);
    assert_eq!(kinds[0], NodeKind::Text);
}

#[test]
fn handles_give_back_what_they_box() {
    let footage = FootageJobPayload::default();
    let shader = ShaderJobPayload::default();
    assert_eq!(shader.node_id, NodeId::invalid());
    assert_eq!(shader.iterations, 1);
    let handle = make_owned(Boxed::Job(Job::FootageJob(footage.clone())));
    assert!(!handle.is_null());
    assert_eq!(footage_job(&handle), Some(&footage));
    assert_eq!(shader_job(&handle), None);
    assert!(job_ref(&handle).is_some());
    assert_eq!(handle.clone(), handle);
    let own = make_owned(Boxed::Shader(shader.clone()));
    assert_eq!(boxed_shader(&own), Some(&shader));
    assert!(shader_job(&own).is_none());
    let job = make_owned(Boxed::Job(Job::ShaderJob(shader.clone())));
    assert_eq!(shader_job(&job), Some(&shader));
    assert!(boxed_texture(&own).is_none());
    assert!(matches!(
        boxed_texture(&make_owned(Boxed::Texture(Texture::Dummy))),
        Some(Texture::Dummy)
    ));
    for empty in [CHandle::null(), make_owned(Boxed::Opaque(7))] {
        assert!(job_ref(&empty).is_none());
        assert!(footage_job(&empty).is_none());
        assert!(boxed_texture(&empty).is_none());
    }
}

#[test]
fn every_job_has_its_accessor() {
    let time = Rational::new(1, 2);
    let plugin = PluginJobPayload {
        type_id: "plugin".to_string(),
        time,
        params: NodeValueRow::new(),
    };
    let transform = ColorTransformJobPayload {
        color_processor: Arc::new(ColorProcessor {
            source: "linear".to_string(),
            destination: "srgb".to_string(),
        }),
        input: NodeValue::Empty,
        time,
    };
    let cache = CacheJobPayload {
        path: "frame.bin".to_string(),
        time,
        fallback: Box::new(NodeValue::Int(3)),
    };
    let job = Job::PluginJob(plugin.clone());
    assert_eq!(job.as_plugin(), Some(&plugin));
    assert!(job.as_footage().is_none() && job.as_shader().is_none());
    assert!(job.as_color_transform().is_none() && job.as_cache().is_none());
    let boxed = |job: Job| make_owned(Boxed::Job(job));
    assert_eq!(plugin_job(&boxed(job)), Some(&plugin));
    assert_eq!(
        color_transform_job(&boxed(Job::ColorTransformJob(transform.clone()))),
        Some(&transform)
    );
    assert_eq!(cache_job(&boxed(Job::CacheJob(cache.clone()))), Some(&cache));
    assert!(cache_job(&boxed(Job::ColorTransformJob(transform))).is_none());
}

#[test]
fn rows_hold_one_value_per_input() {
    let mut row = NodeValueRow::new();
    row.insert("b".to_string(), NodeValue::Int(1));
    row.insert("a".to_string(), NodeValue::Int(2));
    row.insert("b".to_string(), NodeValue::Int(3));
    assert_eq!(row.get("b"), Some(&NodeValue::Int(3)));
    assert!(row.contains_key("a") && !row.contains_key("c"));
    row.remove("b");
    assert_eq!(row.get("b"), None);
    assert_eq!(row.clone(), row);
}

#[test]
fn tables_give_the_most_recent_value_of_a_type() {
    let mut table = NodeValueTable::new();
    assert!(table.is_empty() && table.last_value().is_none());
    table.push(ValueType::Int, NodeValue::Int(1), None);
    table.push(ValueType::Int, NodeValue::Int(2), Some("tag".to_string()));
    table.push(ValueType::Boolean, NodeValue::Boolean(true), None);
    assert_eq!(table.get(ValueType::Int), Some(&NodeValue::Int(2)));
    assert_eq!(table.get(ValueType::Text), None);
    assert_eq!(table.last_value(), Some(&NodeValue::Boolean(true)));
    assert_eq!(table.count(), 3);
    table.clear();
    assert!(table.is_empty());
}

#[test]
fn texture_inputs_take_textures_only() {
    let mut table = NodeValueTable::new();
    table.push(ValueType::Int, NodeValue::Int(1), None);
    assert_eq!(pick_value(&table, Some(ValueType::Texture)), NodeValue::Empty);
    assert_eq!(pick_value(&table, Some(ValueType::Float)), NodeValue::Int(1));
    assert_eq!(pick_value(&table, None), NodeValue::Int(1));
    let handle = make_owned(Boxed::Opaque(1));
    table.push(ValueType::Texture, NodeValue::Texture(handle.clone()), None);
    assert_eq!(pick_value(&table, Some(ValueType::Texture)), NodeValue::Texture(handle));
}

#[test]
fn values_read_as_numbers() {
    let double = |v: f64| Double { bits: v.to_bits() };
    assert_eq!(NodeValue::Float(double(1.5)).to_double(), double(1.5));
    assert_eq!(NodeValue::Int(-3).to_double(), double(-3.0));
    assert_eq!(NodeValue::Combo(2).to_double(), double(2.0));
    assert_eq!(NodeValue::Boolean(true).to_double(), double(1.0));
    assert_eq!(NodeValue::Rational(Rational::new(1, 4)).to_double(), double(0.25));
    assert_eq!(NodeValue::Text("7".to_string()).to_double(), double(0.0));
    assert_eq!(NodeValue::Empty.value_type(), ValueType::Empty);
    assert_eq!(NodeValue::Binary(vec![1]).value_type(), ValueType::Binary);
}
