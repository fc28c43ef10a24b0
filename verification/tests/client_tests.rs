use awc_client::client::{
    bytes_eq, join_bytes, layout_descriptions, select_index, workspace_line, workspace_lines,
    Layout, ViewBox, WindowView, Workspace,
};
use awc_client::wire::{decode_request, encode_request, parse_ok_response, unframe, frame_message,
    OkResponse, Request};

fn layouts() -> Vec<Layout> {
    vec![
        Layout {
            description: b"Full".to_vec(),
            views: vec![ViewBox { x: 0, y: 0, width: 800, height: 600 }],
        },
        Layout {
            description: b"TwoPane".to_vec(),
            views: vec![
                ViewBox { x: 0, y: 0, width: 400, height: 600 },
                ViewBox { x: 400, y: 0, width: 400, height: 600 },
            ],
        },
    ]
}

#[test]
fn bytes_eq_is_exact() {
    assert!(bytes_eq(&b"abc".to_vec(), &b"abc".to_vec()));
    assert!(!bytes_eq(&b"abc".to_vec(), &b"abd".to_vec()));
    assert!(!bytes_eq(&b"abc".to_vec(), &b"ab".to_vec()));
    assert!(bytes_eq(&b"".to_vec(), &b"".to_vec()));
}

#[test]
fn select_index_matches_the_echoed_line() {
    let choices = vec![b"Full".to_vec(), b"TwoPane".to_vec()];
    assert_eq!(select_index(&choices, &b"Full".to_vec()), Some(0));
    assert_eq!(select_index(&choices, &b"TwoPane\n".to_vec()), Some(1));
    assert_eq!(select_index(&choices, &b"Half".to_vec()), None);
    // only one trailing newline is trimmed
    assert_eq!(select_index(&choices, &b"Full\n\n".to_vec()), None);
    // the first match wins
    let dup = vec![b"a".to_vec(), b"a".to_vec()];
    assert_eq!(select_index(&dup, &b"a\n".to_vec()), Some(0));
    // an empty candidate list selects nothing
    assert_eq!(select_index(&Vec::new(), &b"Full".to_vec()), None);
}

#[test]
fn descriptions_list_in_declared_order() {
    let descriptions = layout_descriptions(&layouts());
    assert_eq!(descriptions, vec![b"Full".to_vec(), b"TwoPane".to_vec()]);
    let joined = join_bytes(&descriptions, &b"\n".to_vec());
    assert_eq!(joined, b"Full\nTwoPane".to_vec());
}

#[test]
fn join_bytes_places_separators_between_items() {
    assert_eq!(join_bytes(&Vec::new(), &b", ".to_vec()), b"".to_vec());
    assert_eq!(join_bytes(&vec![b"a".to_vec()], &b", ".to_vec()), b"a".to_vec());
    assert_eq!(
        join_bytes(&vec![b"a".to_vec(), b"b".to_vec(), b"c".to_vec()], &b", ".to_vec()),
        b"a, b, c".to_vec()
    );
}

#[test]
fn workspace_lines_render_tag_and_titles() {
    let ws = Workspace {
        tag: b"mail".to_vec(),
        views: vec![
            WindowView { title: b"inbox".to_vec(), focus: true },
            WindowView { title: b"draft".to_vec(), focus: false },
        ],
    };
    assert_eq!(workspace_line(&ws), b"mail: inbox, draft".to_vec());
    let empty = Workspace { tag: b"2".to_vec(), views: vec![] };
    assert_eq!(workspace_line(&empty), b"2: ".to_vec());
    let lines = workspace_lines(&vec![ws, empty]);
    assert_eq!(lines, vec![b"mail: inbox, draft".to_vec(), b"2: ".to_vec()]);
}

#[test]
fn choosing_a_layout_round_trips_to_the_daemon() {
    // a compositor offering two layouts, described as Full and TwoPane
    let offered = layouts();
    let choices = layout_descriptions(&offered);
    assert_eq!(choices, vec![b"Full".to_vec(), b"TwoPane".to_vec()]);

    // the menu program echoes the second description back
    let chosen = select_index(&choices, &b"TwoPane\n".to_vec());
    assert_eq!(chosen, Some(1));

    // the client sends set_layout with that index and the peer reads it back
    let request = Request::SetLayout { layout_number: chosen.unwrap() as u8 };
    let framed = frame_message(&encode_request(&request));
    let payload = unframe(&framed).expect("whole frame");
    let seen = decode_request(&payload).expect("daemon parses the request");
    assert_eq!(seen, Request::SetLayout { layout_number: 1 });

    // the daemon answers with the literal ok string
    assert_eq!(parse_ok_response(&b"\"ok\"".to_vec()), OkResponse::Accepted);
}
