use good_fences::comments::Span;
use good_fences::segment_graph::{SegmentGraph, SegmentId, TagSet};
use good_fences::symbols::{
    ExportedSymbol, ImportTarget, RawModuleDeps, ReExportedSymbol, Segment, Symbol, SymbolTags, TaggedSymbol,
    VariableScope,
};

fn no_tags() -> SymbolTags {
    SymbolTags { allow_unused_comment: false, is_type_only: false }
}

fn seg(deps: RawModuleDeps) -> Segment {
    Segment { module_deps: deps, variables: VariableScope::new(), span: Span::new(0, 0) }
}

fn exporting_seg(name: &str) -> Segment {
    let mut deps = RawModuleDeps::new();
    deps.exports_locals.push((ExportedSymbol::from_name(name), TaggedSymbol::new(Symbol::named(name), no_tags())));
    seg(deps)
}

fn importing_seg(specifier: &str, name: &str) -> Segment {
    let mut deps = RawModuleDeps::new();
    deps.imports.push((specifier.to_string(), vec![TaggedSymbol::new(Symbol::named(name), no_tags())]));
    seg(deps)
}

fn re_exporting_seg(specifier: &str, name: &str) -> Segment {
    let mut deps = RawModuleDeps::new();
    deps.exports_from.push((
        specifier.to_string(),
        vec![ReExportedSymbol {
            imported_as: ImportTarget::ExportedSymbol(ExportedSymbol::from_name(name)),
            exported_as: Some(ExportedSymbol::from_name(name)),
            tags: no_tags(),
            span: Span::new(0, 0),
        }],
    ));
    seg(deps)
}

fn stmt_seg() -> Segment {
    seg(RawModuleDeps::new())
}

fn tagged(graph: &SegmentGraph, idx: usize, tag: TagSet) -> bool {
    graph.nodes[idx].tags.contains(tag)
}

#[test]
fn linear_chain_propagation() {
    let f0_segs = vec![exporting_seg("a"), exporting_seg("b")];
    let f1_segs = vec![importing_seg("./f0", "a"), importing_seg("./f0", "b")];
    let file_segments: Vec<(usize, &[Segment])> = vec![(0, &f0_segs), (1, &f1_segs)];
    let mut graph = SegmentGraph::build(&file_segments);

    let resolved = vec![((1, "./f0".to_string()), 0usize)];
    graph.add_inter_file_edges(&file_segments, &resolved);

    let seed = graph.node_index(&SegmentId::new(1, 0)).unwrap();
    graph.propagate_tags(&[seed], TagSet::reachable());

    assert!(tagged(&graph, seed, TagSet::reachable()));
    let a_idx = graph.node_index(&SegmentId::new(0, 0)).unwrap();
    assert!(tagged(&graph, a_idx, TagSet::reachable()));
    let b_idx = graph.node_index(&SegmentId::new(0, 1)).unwrap();
    assert!(!tagged(&graph, b_idx, TagSet::reachable()));
    let f1s1 = graph.node_index(&SegmentId::new(1, 1)).unwrap();
    assert!(!tagged(&graph, f1s1, TagSet::reachable()));
}

#[test]
fn diamond_dependency() {
    let f0 = vec![exporting_seg("shared")];
    let f1 = vec![re_exporting_seg("./f0", "shared")];
    let f2 = vec![re_exporting_seg("./f0", "shared")];

    let mut f3_deps = RawModuleDeps::new();
    f3_deps.imports.push(("./f1".to_string(), vec![TaggedSymbol::new(Symbol::named("shared"), no_tags())]));
    f3_deps.imports.push(("./f2".to_string(), vec![TaggedSymbol::new(Symbol::named("shared"), no_tags())]));
    let f3 = vec![seg(f3_deps)];

    let file_segments: Vec<(usize, &[Segment])> = vec![(0, &f0), (1, &f1), (2, &f2), (3, &f3)];
    let mut graph = SegmentGraph::build(&file_segments);

    let resolved = vec![
        ((1, "./f0".to_string()), 0usize),
        ((2, "./f0".to_string()), 0usize),
        ((3, "./f1".to_string()), 1usize),
        ((3, "./f2".to_string()), 2usize),
    ];
    graph.add_inter_file_edges(&file_segments, &resolved);

    let seed = graph.node_index(&SegmentId::new(3, 0)).unwrap();
    graph.propagate_tags(&[seed], TagSet::reachable());

    let shared_idx = graph.node_index(&SegmentId::new(0, 0)).unwrap();
    assert!(tagged(&graph, shared_idx, TagSet::reachable()));
}

#[test]
fn cycle_handling() {
    let f0 = vec![exporting_seg("a"), importing_seg("./f1", "b")];
    let f1 = vec![exporting_seg("b"), importing_seg("./f0", "a")];
    let file_segments: Vec<(usize, &[Segment])> = vec![(0, &f0), (1, &f1)];
    let mut graph = SegmentGraph::build(&file_segments);

    let resolved = vec![((0, "./f1".to_string()), 1usize), ((1, "./f0".to_string()), 0usize)];
    graph.add_inter_file_edges(&file_segments, &resolved);

    let seed = graph.node_index(&SegmentId::new(0, 0)).unwrap();
    graph.propagate_tags(&[seed], TagSet::reachable());

    assert!(tagged(&graph, seed, TagSet::reachable()));
    let f0_s1 = graph.node_index(&SegmentId::new(0, 1)).unwrap();
    assert!(!tagged(&graph, f0_s1, TagSet::reachable()));
}

#[test]
fn intra_file_effect_edges_skip_hoisted() {
    let f0 = vec![importing_seg("./a", "x"), stmt_seg(), stmt_seg(), importing_seg("./b", "y")];
    let file_segments: Vec<(usize, &[Segment])> = vec![(0, &f0)];
    let graph = SegmentGraph::build(&file_segments);

    let idx0 = graph.node_index(&SegmentId::new(0, 0)).unwrap();
    let idx1 = graph.node_index(&SegmentId::new(0, 1)).unwrap();
    let idx2 = graph.node_index(&SegmentId::new(0, 2)).unwrap();
    let idx3 = graph.node_index(&SegmentId::new(0, 3)).unwrap();

    assert!(graph.edges[idx0].is_empty());
    assert!(graph.edges[idx3].is_empty());
    assert!(graph.edges[idx1].is_empty());
    assert!(graph.edges[idx2].contains(&idx1));
}

#[test]
fn multiple_tags_independent() {
    let f0 = vec![exporting_seg("a")];
    let f1 = vec![exporting_seg("b")];
    let file_segments: Vec<(usize, &[Segment])> = vec![(0, &f0), (1, &f1)];
    let mut graph = SegmentGraph::build(&file_segments);

    let idx0 = graph.node_index(&SegmentId::new(0, 0)).unwrap();
    let idx1 = graph.node_index(&SegmentId::new(1, 0)).unwrap();

    graph.propagate_tags(&[idx0], TagSet::reachable());
    graph.propagate_tags(&[idx1], TagSet::effectful());

    assert!(tagged(&graph, idx0, TagSet::reachable()));
    assert!(!tagged(&graph, idx0, TagSet::effectful()));
    assert!(!tagged(&graph, idx1, TagSet::reachable()));
    assert!(tagged(&graph, idx1, TagSet::effectful()));
}

#[test]
fn nodes_without_tag_reports_unreached() {
    let f0 = vec![exporting_seg("a"), exporting_seg("b"), stmt_seg()];
    let file_segments: Vec<(usize, &[Segment])> = vec![(0, &f0)];
    let mut graph = SegmentGraph::build(&file_segments);

    let idx0 = graph.node_index(&SegmentId::new(0, 0)).unwrap();
    graph.propagate_tags(&[idx0], TagSet::reachable());

    let unreached = graph.nodes_without_tag(TagSet::reachable());
    assert_eq!(unreached.len(), 2);
    assert!(!unreached.contains(&idx0));
}

#[test]
fn propagation_from_ids_skips_unknown_ids() {
    let f0 = vec![importing_seg("./f1", "b"), stmt_seg()];
    let f1 = vec![exporting_seg("b")];
    let file_segments: Vec<(usize, &[Segment])> = vec![(0, &f0), (1, &f1)];
    let mut graph = SegmentGraph::build(&file_segments);
    graph.add_inter_file_edges(&file_segments, &vec![((0, "./f1".to_string()), 1usize)]);

    graph.propagate_tags_from_ids(&[SegmentId::new(0, 0), SegmentId::new(7, 7)], TagSet::reachable());

    let export_b = graph.node_index(&SegmentId::new(1, 0)).unwrap();
    let stmt = graph.node_index(&SegmentId::new(0, 1)).unwrap();
    assert!(tagged(&graph, export_b, TagSet::reachable()));
    assert!(!tagged(&graph, stmt, TagSet::reachable()));
    assert_eq!(graph.node_index(&SegmentId::new(7, 7)), None);
}

#[test]
fn tag_set_operations() {
    let both = TagSet::reachable().union(TagSet::effectful());
    assert_eq!(both.bits(), 3);
    assert!(both.contains(TagSet::reachable()));
    assert!(both.contains(TagSet::effectful()));
    assert!(!TagSet::reachable().contains(TagSet::effectful()));
    assert!(TagSet::empty().is_empty());
}
