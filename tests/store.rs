use urxiv::annotation::{
    create_annotation, get_file_annotations, index_directory, index_file, is_indexable, new_block_links,
};
use urxiv::clock::timestamp_from_clock;
use urxiv::blocks::{
    connect_blocks, create_block_at, create_channel, delete_block, disconnect_blocks, get_all_blocks,
    get_all_channels, get_all_files, get_block, get_blocks_in_channel, get_workspace_status,
    update_block_content,
};
use urxiv::model::{Block, ChannelContent, Content, StoreError, Timestamp};
use urxiv::session::AppState;
use urxiv::storage::{
    file_type_for_extension, find_highest_block_id, get_file_type, record_id_of_name, select_workspace,
};
use urxiv::workspace::{index_workspace_entry, is_hidden_path, IndexedFile};

fn open_session() -> AppState {
    let mut st = AppState::new();
    select_workspace(&mut st, "/ws".to_string(), "/ws/.urxiv".to_string(), &vec![], &vec![]);
    st
}

fn sample_block(id: u64, tag: &str, connections: Vec<u64>) -> Block {
    Block {
        id,
        created_at: Timestamp { micros: 1_000 },
        updated_at: Timestamp { micros: 1_000 },
        block_type: tag.to_string(),
        content: Content::Opaque("{}".to_string()),
        connections,
    }
}

fn ids(v: &[Block]) -> Vec<u64> {
    v.iter().map(|b| b.id).collect()
}

#[test]
fn file_types_by_extension() {
    assert_eq!(get_file_type("docs/paper.pdf"), "pdf");
    assert_eq!(get_file_type("book.epub"), "epub");
    assert_eq!(get_file_type("src/main.rs"), "code");
    assert_eq!(get_file_type("a/b/widget.tsx"), "code");
    assert_eq!(get_file_type("notes.md"), "text");
    assert_eq!(get_file_type("todo.txt"), "text");
    assert_eq!(get_file_type("photo.png"), "other");
    assert_eq!(get_file_type("README"), "other");
    assert_eq!(get_file_type("NOTES.MD"), "other");
    assert_eq!(get_file_type("archive.tar.md"), "text");
}

#[test]
fn file_type_of_extension_values() {
    assert_eq!(file_type_for_extension(Some("hpp")), "code");
    assert_eq!(file_type_for_extension(Some("md")), "text");
    assert_eq!(file_type_for_extension(Some("markdown")), "other");
    assert_eq!(file_type_for_extension(None), "other");
}

#[test]
fn record_names_give_ids() {
    assert_eq!(record_id_of_name("5.json"), Some(5));
    assert_eq!(record_id_of_name("007.json"), Some(7));
    assert_eq!(record_id_of_name("+7.json"), Some(7));
    assert_eq!(record_id_of_name("18446744073709551615.json"), Some(u64::MAX));
    assert_eq!(record_id_of_name("18446744073709551616.json"), None);
    assert_eq!(record_id_of_name("abc.json"), None);
    assert_eq!(record_id_of_name(".json"), None);
    assert_eq!(record_id_of_name("+.json"), None);
    assert_eq!(record_id_of_name("5.txt"), None);
    assert_eq!(record_id_of_name("5.json.bak"), None);
}

#[test]
fn highest_id_among_names() {
    let names = vec!["3.json".to_string(), "x.json".to_string(), "12.json".to_string(), "40.txt".to_string()];
    assert_eq!(find_highest_block_id(&names), 12);
    assert_eq!(find_highest_block_id(&vec![]), 0);
}

#[test]
fn closed_session_refuses_operations() {
    let mut st = AppState::new();
    assert!(!get_workspace_status(&st));
    assert_eq!(get_block(&st, 1).unwrap_err(), StoreError::NoWorkspace);
    assert_eq!(get_all_blocks(&st).unwrap_err(), StoreError::NoWorkspace);
    assert_eq!(connect_blocks(&st, 1, 2).unwrap_err(), StoreError::NoWorkspace);
    assert_eq!(create_channel(&mut st, "t".to_string(), "d".to_string()).unwrap_err(), StoreError::NoWorkspace);
    assert!(index_directory(&mut st, &vec!["a.pdf".to_string()]).is_empty());
}

#[test]
fn created_ids_increase_and_resume_above_disk() {
    let mut st = open_session();
    assert!(get_workspace_status(&st));
    let a = create_channel(&mut st, "A".to_string(), "".to_string()).unwrap();
    let b = create_channel(&mut st, "B".to_string(), "".to_string()).unwrap();
    let c = create_channel(&mut st, "C".to_string(), "".to_string()).unwrap();
    assert_eq!((a.id, b.id, c.id), (1, 2, 3));
    assert_eq!(a.created_at, a.updated_at);
    assert!(a.connections.is_empty());

    let mut st2 = AppState::new();
    let names = vec!["9.json".to_string(), "4.json".to_string()];
    let records = vec![Some(sample_block(4, "file", vec![])), Some(sample_block(9, "file", vec![]))];
    select_workspace(&mut st2, "/w".to_string(), "/w/.urxiv".to_string(), &names, &records);
    let d = create_channel(&mut st2, "D".to_string(), "".to_string()).unwrap();
    assert_eq!(d.id, 10);
}

#[test]
fn reopen_resumes_above_record_contents() {
    let mut st = AppState::new();
    let names = vec!["3.json".to_string()];
    let records = vec![Some(sample_block(20, "file", vec![]))];
    select_workspace(&mut st, "/w".to_string(), "/w/.urxiv".to_string(), &names, &records);
    assert_eq!(create_channel(&mut st, "x".to_string(), "".to_string()).unwrap().id, 21);
}

#[test]
fn tolerant_load_keeps_well_formed_records() {
    let mut st = AppState::new();
    let names = vec!["1.json".to_string(), "2.json".to_string()];
    let records = vec![Some(sample_block(1, "channel", vec![])), None];
    select_workspace(&mut st, "/w".to_string(), "/w/.urxiv".to_string(), &names, &records);
    let all = get_all_blocks(&st).unwrap();
    assert_eq!(ids(&all), vec![1]);
    assert_eq!(get_block(&st, 2).unwrap_err(), StoreError::NotFound(2));
}

#[test]
fn reselecting_discards_previous_cache() {
    let mut st = open_session();
    let a = create_channel(&mut st, "A".to_string(), "".to_string()).unwrap();
    st.cache_block(a);
    select_workspace(&mut st, "/v".to_string(), "/v/.urxiv".to_string(), &vec![], &vec![]);
    assert!(get_all_blocks(&st).unwrap().is_empty());
    assert_eq!(st.workspace_dir(), Some("/v".to_string()));
    assert_eq!(st.data_dir(), Some("/v/.urxiv".to_string()));
}

#[test]
fn connect_twice_keeps_one_edge() {
    let mut st = open_session();
    let a = create_channel(&mut st, "A".to_string(), "".to_string()).unwrap();
    st.cache_block(a);
    let b = create_channel(&mut st, "B".to_string(), "".to_string()).unwrap();
    st.cache_block(b);
    let changed = connect_blocks(&st, 1, 2).unwrap().unwrap();
    assert_eq!(changed.connections, vec![2]);
    st.cache_block(changed);
    assert!(connect_blocks(&st, 1, 2).unwrap().is_none());
    assert_eq!(get_block(&st, 1).unwrap().connections, vec![2]);
    assert_eq!(connect_blocks(&st, 1, 7).unwrap_err(), StoreError::NotFound(7));
    assert_eq!(connect_blocks(&st, 8, 1).unwrap_err(), StoreError::NotFound(8));
}

#[test]
fn disconnect_absent_edge_is_no_op() {
    let mut st = open_session();
    st.cache_block(sample_block(1, "channel", vec![3, 2, 4]));
    st.cache_block(sample_block(2, "file", vec![]));
    assert!(disconnect_blocks(&st, 2, 1).unwrap().is_none());
    let changed = disconnect_blocks(&st, 1, 2).unwrap().unwrap();
    assert_eq!(changed.connections, vec![3, 4]);
    assert_eq!(disconnect_blocks(&st, 9, 1).unwrap_err(), StoreError::NotFound(9));
}

#[test]
fn delete_purges_incoming_edges() {
    let mut st = open_session();
    st.cache_block(sample_block(1, "file", vec![2, 5]));
    st.cache_block(sample_block(2, "file", vec![1]));
    st.cache_block(sample_block(3, "channel", vec![5]));
    let rewrites = delete_block(&st, 2).unwrap();
    assert_eq!(ids(&rewrites), vec![1]);
    assert_eq!(rewrites[0].connections, vec![5]);
    assert_eq!(rewrites[0].created_at, Timestamp { micros: 1_000 });
    assert_eq!(rewrites[0].content, Content::Opaque("{}".to_string()));
    for b in rewrites {
        st.cache_block(b);
    }
    st.remove_block(2);
    assert_eq!(get_block(&st, 2).unwrap_err(), StoreError::NotFound(2));
    assert_eq!(get_block(&st, 1).unwrap().connections, vec![5]);
    assert_eq!(delete_block(&st, 2).unwrap_err(), StoreError::NotFound(2));
}

#[test]
fn update_replaces_content() {
    let mut st = open_session();
    st.cache_block(sample_block(1, "note", vec![4]));
    let new_content = Content::Channel(ChannelContent { title: "T".to_string(), description: "D".to_string() });
    let b = update_block_content(&st, 1, new_content.clone()).unwrap();
    assert_eq!(b.content, new_content);
    assert_eq!(b.connections, vec![4]);
    assert_eq!(b.block_type, "note");
    assert_eq!(update_block_content(&st, 3, new_content).unwrap_err(), StoreError::NotFound(3));
}

#[test]
fn listing_by_type_and_channel_members() {
    let mut st = open_session();
    st.cache_block(sample_block(3, "file", vec![]));
    st.cache_block(sample_block(1, "channel", vec![3, 9, 2]));
    st.cache_block(sample_block(2, "file", vec![]));
    assert_eq!(ids(&get_all_blocks(&st).unwrap()), vec![1, 2, 3]);
    assert_eq!(ids(&get_all_files(&st).unwrap()), vec![2, 3]);
    assert_eq!(ids(&get_all_channels(&st).unwrap()), vec![1]);
    assert_eq!(ids(&get_blocks_in_channel(&st, 1).unwrap()), vec![3, 2]);
    assert_eq!(get_blocks_in_channel(&st, 2).unwrap_err(), StoreError::InvalidTarget(2));
    assert_eq!(get_blocks_in_channel(&st, 5).unwrap_err(), StoreError::NotFound(5));
}

#[test]
fn created_block_at_given_time() {
    let mut st = open_session();
    let t = Timestamp { micros: 42 };
    let b = create_block_at(&mut st, "thing", Content::Opaque("[1]".to_string()), t).unwrap();
    assert_eq!(b.id, 1);
    assert_eq!(b.created_at, t);
    assert_eq!(b.updated_at, t);
    assert_eq!(b.block_type, "thing");
}

#[test]
fn indexed_file_fields() {
    let mut st = open_session();
    let b = index_file(&mut st, "/home/u/notes.md").unwrap();
    assert_eq!(b.block_type, "file");
    match &b.content {
        Content::File(f) => {
            assert_eq!(f.filename, "notes.md");
            assert_eq!(f.path, "/home/u");
            assert_eq!(f.full_path, "/home/u/notes.md");
            assert_eq!(f.file_type, "text");
            let stamp = f.indexed_at.clone().unwrap();
            assert!(stamp.contains('T'));
        }
        other => panic!("unexpected content {:?}", other),
    }
}

#[test]
fn directory_scan_filters_extensions() {
    let mut st = open_session();
    let paths = vec![
        "d/A.PDF".to_string(),
        "d/x.png".to_string(),
        "d/readme.markdown".to_string(),
        "d/paper.pdf".to_string(),
        "d/noext".to_string(),
        "d/notes.md".to_string(),
    ];
    let out = index_directory(&mut st, &paths);
    assert_eq!(ids(&out), vec![1, 2]);
    match (&out[0].content, &out[1].content) {
        (Content::File(a), Content::File(b)) => {
            assert_eq!(a.full_path, "d/paper.pdf");
            assert_eq!(a.file_type, "pdf");
            assert_eq!(b.filename, "notes.md");
            assert_eq!(b.file_type, "text");
        }
        _ => panic!("expected file content"),
    }
    assert!(is_indexable("x/y.md"));
    assert!(!is_indexable("x/Y.MD"));
    assert!(!is_indexable("x/y.markdown"));
    assert!(!is_indexable("x/y.png"));
}

#[test]
fn links_of_new_blocks_in_order() {
    assert_eq!(new_block_links(Some(2), Some(1)), vec![2, 1]);
    assert_eq!(new_block_links(None, Some(1)), vec![1]);
    assert_eq!(new_block_links(Some(4), None), vec![4]);
    assert!(new_block_links(None, None).is_empty());
}

#[test]
fn clock_readings_to_timestamps() {
    assert_eq!(timestamp_from_clock(true, 2, 345_678_901).micros, 2_345_678);
    assert_eq!(timestamp_from_clock(false, 2, 345_678_901).micros, -2_345_678);
    assert_eq!(timestamp_from_clock(true, u64::MAX, 0).micros, i64::MAX);
    assert_eq!(timestamp_from_clock(false, u64::MAX, 0).micros, i64::MIN);
}

#[test]
fn hidden_components() {
    assert!(is_hidden_path(".git/config"));
    assert!(is_hidden_path("a/.cache/b.md"));
    assert!(!is_hidden_path("a/b.c/d.md"));
    assert!(!is_hidden_path("notes.md"));
}

#[test]
fn workspace_scan_entries() {
    let mut st = open_session();
    assert!(index_workspace_entry(&mut st, ".hidden/a.md", "/ws/.hidden/a.md").unwrap().is_none());
    assert!(index_workspace_entry(&mut st, "img.png", "/ws/img.png").unwrap().is_none());
    let created = match index_workspace_entry(&mut st, "docs/a.md", "/ws/docs/a.md").unwrap() {
        Some(IndexedFile::Created(b)) => b,
        _ => panic!("expected a new block"),
    };
    assert_eq!(created.id, 1);
    match &created.content {
        Content::File(f) => {
            assert_eq!(f.path, "docs/a.md");
            assert_eq!(f.filename, "a.md");
            assert_eq!(f.file_type, "text");
            assert_eq!(f.indexed_at, None);
        }
        _ => panic!("expected file content"),
    }
    st.cache_block(created);
    match index_workspace_entry(&mut st, "docs/a.md", "/ws/docs/a.md").unwrap() {
        Some(IndexedFile::Existing(b)) => assert_eq!(b.id, 1),
        _ => panic!("expected the existing block"),
    }
}

#[test]
fn reading_list_scenario() {
    let mut st = open_session();
    let channel = create_channel(&mut st, "Reading".to_string(), "desc".to_string()).unwrap();
    assert_eq!(channel.id, 1);
    st.cache_block(channel);
    let file = index_file(&mut st, "notes.md").unwrap();
    assert_eq!(file.id, 2);
    match &file.content {
        Content::File(f) => assert_eq!(f.file_type, "text"),
        _ => panic!("expected file content"),
    }
    st.cache_block(file);
    let changed = connect_blocks(&st, 1, 2).unwrap().unwrap();
    st.cache_block(changed);
    assert_eq!(ids(&get_blocks_in_channel(&st, 1).unwrap()), vec![2]);

    let note = create_annotation(&mut st, "interesting".to_string(), Some(2), Some(10), None).unwrap();
    assert_eq!(note.id, 3);
    match &note.content {
        Content::Annotation(a) => {
            assert_eq!(a.source_file_id, Some(2));
            assert_eq!(a.source_file_name, Some("notes.md".to_string()));
            assert_eq!(a.position, Some(10));
            assert_eq!(a.annotation_type, "note");
        }
        _ => panic!("expected annotation content"),
    }
    st.cache_block(note);
    let changed = connect_blocks(&st, 2, 3).unwrap().unwrap();
    st.cache_block(changed);
    assert!(connect_blocks(&st, 2, 3).unwrap().is_none());
    assert_eq!(ids(&get_file_annotations(&st, 2).unwrap()), vec![3]);
}

#[test]
fn annotations_sorted_by_position() {
    let mut st = open_session();
    st.cache_block(sample_block(1, "file", vec![4]));
    for (id, pos) in [(2u64, Some(30u64)), (3, None), (4, Some(5)), (5, Some(12))] {
        let a = create_block_at(
            &mut st,
            "annotation",
            Content::Annotation(urxiv::model::AnnotationContent {
                text: format!("a{}", id),
                source_file_id: Some(1),
                source_file_name: None,
                position: pos,
                selected_text: None,
                annotation_type: "note".to_string(),
            }),
            Timestamp { micros: 0 },
        )
        .unwrap();
        let a = if id == 4 { a } else { Block { connections: vec![1], ..a } };
        st.cache_block(a);
    }
    st.cache_block(sample_block(6, "annotation", vec![]));
    assert_eq!(ids(&get_file_annotations(&st, 1).unwrap()), vec![4, 5, 2, 3]);
    assert_eq!(get_file_annotations(&st, 9).unwrap_err(), StoreError::NotFound(9));
}

#[test]
fn allocator_exhaustion_is_reported() {
    let mut st = AppState::new();
    let names = vec!["18446744073709551615.json".to_string()];
    select_workspace(&mut st, "/w".to_string(), "/w/.urxiv".to_string(), &names, &vec![]);
    assert_eq!(
        create_channel(&mut st, "x".to_string(), "".to_string()).unwrap_err(),
        StoreError::IdsExhausted
    );
    assert_eq!(index_file(&mut st, "a.md").unwrap_err(), StoreError::IdsExhausted);
    assert!(index_directory(&mut st, &vec!["a.md".to_string()]).is_empty());
}

#[test]
fn reload_reproduces_written_blocks() {
    let mut st = open_session();
    let a = create_channel(&mut st, "A".to_string(), "first".to_string()).unwrap();
    st.cache_block(a);
    let b = index_file(&mut st, "docs/b.pdf").unwrap();
    st.cache_block(b);
    let changed = connect_blocks(&st, 1, 2).unwrap().unwrap();
    st.cache_block(changed);
    let before = get_all_blocks(&st).unwrap();
    let names: Vec<String> = before.iter().map(|b| format!("{}.json", b.id)).collect();
    let records: Vec<Option<Block>> = before.iter().cloned().map(Some).collect();
    let mut reopened = AppState::new();
    select_workspace(&mut reopened, "/ws".to_string(), "/ws/.urxiv".to_string(), &names, &records);
    assert_eq!(get_all_blocks(&reopened).unwrap(), before);
    assert_eq!(create_channel(&mut reopened, "C".to_string(), "".to_string()).unwrap().id, 3);
}
