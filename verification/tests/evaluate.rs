use turbopack_ecmascript::chunk::{
    Chunk, ChunkGroup, ChunkKind, ChunkingContext, EcmascriptChunkItem, EcmascriptChunkPlaceable,
    ModuleId,
};
use turbopack_ecmascript::evaluate::EcmascriptChunkEvaluate;
use turbopack_ecmascript::paths::get_path_to;

fn script(id: u64, path: &str) -> Chunk {
    Chunk { id, kind: ChunkKind::Script, in_group: true, path: path.to_string() }
}

fn asset(id: u64, path: &str) -> Chunk {
    Chunk { id, kind: ChunkKind::Other, in_group: true, path: path.to_string() }
}

fn entry(id: u64) -> EcmascriptChunkPlaceable {
    EcmascriptChunkPlaceable { chunk_item: EcmascriptChunkItem { id: ModuleId { id } } }
}

fn context(root: &str) -> ChunkingContext {
    ChunkingContext { output_root: root.to_string() }
}

#[test]
fn example_scenario() {
    let origin = script(1, "/out/a.js");
    let group = ChunkGroup {
        chunks: vec![
            origin.clone(),
            script(2, "/out/b.js"),
            asset(3, "/out/c.css"),
            script(4, "/elsewhere/d.js"),
        ],
    };
    let request = EcmascriptChunkEvaluate {
        evaluate_entries: vec![entry(7), entry(12)],
        chunk_group: None,
        chunk_list_path: Some("/out/chunk-list.json".to_string()),
    };
    let r = request.content(&context("/out"), &origin, &group);
    assert_eq!(r.ecma_chunks_server_paths, vec!["b.js".to_string()]);
    assert_eq!(r.other_chunks_server_paths, vec!["c.css".to_string()]);
    assert_eq!(r.entry_modules_ids, vec![ModuleId { id: 7 }, ModuleId { id: 12 }]);
    assert_eq!(r.chunk_list_path, Some("chunk-list.json".to_string()));
}

#[test]
fn self_exclusion() {
    let origin = script(1, "/out/origin.js");
    let group = ChunkGroup { chunks: vec![origin.clone(), script(2, "/out/b.js")] };
    let request = EcmascriptChunkEvaluate {
        evaluate_entries: vec![entry(1)],
        chunk_group: None,
        chunk_list_path: None,
    };
    let r = request.content(&context("/out"), &origin, &group);
    assert!(!r.ecma_chunks_server_paths.contains(&"origin.js".to_string()));
    assert!(!r.other_chunks_server_paths.contains(&"origin.js".to_string()));
    assert_eq!(r.ecma_chunks_server_paths, vec!["b.js".to_string()]);
}

#[test]
fn classification_partition() {
    let origin = script(1, "/out/origin.js");
    let group = ChunkGroup {
        chunks: vec![
            origin.clone(),
            script(2, "/out/b.js"),
            asset(3, "/out/c.css"),
            script(4, "/out/d.js"),
            asset(5, "/out/e.css"),
        ],
    };
    let request = EcmascriptChunkEvaluate {
        evaluate_entries: vec![entry(1)],
        chunk_group: None,
        chunk_list_path: None,
    };
    let r = request.content(&context("/out"), &origin, &group);
    for member in ["b.js", "d.js", "c.css", "e.css"] {
        let in_scripts =
            r.ecma_chunks_server_paths.iter().filter(|p| p.as_str() == member).count();
        let in_assets =
            r.other_chunks_server_paths.iter().filter(|p| p.as_str() == member).count();
        assert_eq!(in_scripts + in_assets, 1, "{member} must appear exactly once");
    }
}

#[test]
fn order_preservation() {
    let origin = script(9, "/out/origin.js");
    let group = ChunkGroup {
        chunks: vec![
            script(3, "/out/third.js"),
            asset(4, "/out/styles.css"),
            script(1, "/out/first.js"),
            asset(5, "/out/more.css"),
            script(2, "/out/second.js"),
        ],
    };
    let request = EcmascriptChunkEvaluate {
        evaluate_entries: vec![entry(30), entry(10), entry(20)],
        chunk_group: None,
        chunk_list_path: None,
    };
    let r = request.content(&context("/out"), &origin, &group);
    assert_eq!(
        r.ecma_chunks_server_paths,
        vec!["third.js".to_string(), "first.js".to_string(), "second.js".to_string()]
    );
    assert_eq!(
        r.other_chunks_server_paths,
        vec!["styles.css".to_string(), "more.css".to_string()]
    );
    assert_eq!(
        r.entry_modules_ids,
        vec![ModuleId { id: 30 }, ModuleId { id: 10 }, ModuleId { id: 20 }]
    );
}

#[test]
fn root_filtering_drops_outside_chunks() {
    let origin = script(1, "/out/origin.js");
    let group = ChunkGroup {
        chunks: vec![
            origin.clone(),
            script(2, "/cache/b.js"),
            asset(3, "/cache/c.css"),
            script(4, "/out/d.js"),
        ],
    };
    let request = EcmascriptChunkEvaluate {
        evaluate_entries: vec![entry(1)],
        chunk_group: None,
        chunk_list_path: None,
    };
    let r = request.content(&context("/out"), &origin, &group);
    assert_eq!(r.ecma_chunks_server_paths, vec!["d.js".to_string()]);
    assert!(r.other_chunks_server_paths.is_empty());
}

#[test]
fn root_filtering_drops_outside_chunk_list() {
    let origin = script(1, "/out/origin.js");
    let group = ChunkGroup { chunks: vec![origin.clone()] };
    let request = EcmascriptChunkEvaluate {
        evaluate_entries: vec![entry(1)],
        chunk_group: None,
        chunk_list_path: Some("/elsewhere/chunk-list.json".to_string()),
    };
    let r = request.content(&context("/out"), &origin, &group);
    assert_eq!(r.chunk_list_path, None);
}

#[test]
fn chunk_list_absent_stays_none() {
    let origin = script(1, "/out/origin.js");
    let group = ChunkGroup { chunks: vec![origin.clone()] };
    let request = EcmascriptChunkEvaluate {
        evaluate_entries: vec![entry(1)],
        chunk_group: None,
        chunk_list_path: None,
    };
    let r = request.content(&context("/out"), &origin, &group);
    assert_eq!(r.chunk_list_path, None);
}

#[test]
fn default_group_derivation() {
    let origin = script(1, "/out/origin.js");
    let origin_group = ChunkGroup { chunks: vec![origin.clone(), script(2, "/out/b.js")] };
    let request = EcmascriptChunkEvaluate {
        evaluate_entries: vec![entry(1)],
        chunk_group: None,
        chunk_list_path: None,
    };
    let r = request.content(&context("/out"), &origin, &origin_group);
    assert_eq!(r.ecma_chunks_server_paths, vec!["b.js".to_string()]);
}

#[test]
fn explicit_group_overrides_derived_group() {
    let origin = script(1, "/out/origin.js");
    let origin_group = ChunkGroup { chunks: vec![origin.clone(), script(2, "/out/b.js")] };
    let explicit = ChunkGroup { chunks: vec![origin.clone(), script(3, "/out/c.js")] };
    let request = EcmascriptChunkEvaluate {
        evaluate_entries: vec![entry(1)],
        chunk_group: Some(explicit),
        chunk_list_path: None,
    };
    let r = request.content(&context("/out"), &origin, &origin_group);
    assert_eq!(r.ecma_chunks_server_paths, vec!["c.js".to_string()]);
}

#[test]
fn idempotence() {
    let origin = script(1, "/out/origin.js");
    let group = ChunkGroup {
        chunks: vec![
            origin.clone(),
            script(2, "/out/b.js"),
            asset(3, "/out/c.css"),
            script(4, "/elsewhere/d.js"),
        ],
    };
    let request = EcmascriptChunkEvaluate {
        evaluate_entries: vec![entry(7), entry(12)],
        chunk_group: None,
        chunk_list_path: Some("/out/chunk-list.json".to_string()),
    };
    let ctx = context("/out");
    let first = request.content(&ctx, &origin, &group);
    let second = request.content(&ctx, &origin, &group);
    assert_eq!(first.ecma_chunks_server_paths, second.ecma_chunks_server_paths);
    assert_eq!(first.other_chunks_server_paths, second.other_chunks_server_paths);
    assert_eq!(first.entry_modules_ids, second.entry_modules_ids);
    assert_eq!(first.chunk_list_path, second.chunk_list_path);
}

#[test]
fn non_member_chunk_is_skipped() {
    let origin = script(1, "/out/origin.js");
    let loose = Chunk {
        id: 2,
        kind: ChunkKind::Script,
        in_group: false,
        path: "/out/loose.js".to_string(),
    };
    let group = ChunkGroup { chunks: vec![origin.clone(), loose, script(3, "/out/b.js")] };
    let request = EcmascriptChunkEvaluate {
        evaluate_entries: vec![entry(1)],
        chunk_group: None,
        chunk_list_path: None,
    };
    let r = request.content(&context("/out"), &origin, &group);
    assert_eq!(r.ecma_chunks_server_paths, vec!["b.js".to_string()]);
    assert!(r.other_chunks_server_paths.is_empty());
}

#[test]
fn get_path_to_inside_root() {
    assert_eq!(get_path_to("/out", "/out/a/b.js"), Some("a/b.js".to_string()));
}

#[test]
fn get_path_to_sibling_prefix_is_outside() {
    assert_eq!(get_path_to("/out", "/output/x.js"), None);
}

#[test]
fn get_path_to_root_itself_is_outside() {
    assert_eq!(get_path_to("/out", "/out"), None);
}

#[test]
fn get_path_to_empty_root_keeps_path() {
    assert_eq!(get_path_to("", "x/y.js"), Some("x/y.js".to_string()));
}

#[test]
fn no_entries_give_no_module_ids() {
    let origin = script(1, "/out/origin.js");
    let group = ChunkGroup { chunks: vec![origin.clone()] };
    let request = EcmascriptChunkEvaluate {
        evaluate_entries: vec![],
        chunk_group: None,
        chunk_list_path: None,
    };
    let r = request.content(&context("/out"), &origin, &group);
    assert!(r.entry_modules_ids.is_empty());
    assert!(r.ecma_chunks_server_paths.is_empty());
    assert!(r.other_chunks_server_paths.is_empty());
}
