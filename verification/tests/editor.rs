use wisp::editor::{
    add_to_index, bundled_asset_path, capture_target, initial_device, bundled_source_path, checkerboard_pixels, name_le, new_shader_name, position,
    scan, shader_source_key, user_asset_path, user_source_path, Editor, ShaderFile, ShaderSource, INITIAL_SHADER,
    SHADER_INDEX_KEY,
};

const BUNDLED: &[(&str, &str)] = &[("wave", "// wave"), ("alpha", "// alpha"), ("test_inputs", "// inputs")];

fn names(files: &[ShaderFile]) -> Vec<&str> {
    files.iter().map(|f| f.name.as_str()).collect()
}

#[test]
fn keys_and_paths() {
    assert_eq!(SHADER_INDEX_KEY, "shaders");
    assert_eq!(shader_source_key("wave"), "shader/wave");
    assert_eq!(bundled_asset_path("wave"), "embedded://wisp/wave.wgsl");
    assert_eq!(user_asset_path("wave"), "embedded://wisp/user/wave.wgsl");
    assert_eq!(bundled_source_path("wave"), "wisp/wave.wgsl");
    assert_eq!(user_source_path("wave"), "wisp/user/wave.wgsl");
}

#[test]
fn new_names_are_trimmed_and_spaces_become_underscores() {
    assert_eq!(new_shader_name("  my cool  shader\t"), "my_cool__shader");
    assert_eq!(new_shader_name("plain"), "plain");
    assert_eq!(new_shader_name("   "), "");
}

#[test]
fn the_index_holds_each_name_once() {
    let mut index = vec!["a".to_string()];
    assert!(add_to_index(&mut index, "b"));
    assert!(!add_to_index(&mut index, "a"));
    assert!(!add_to_index(&mut index, "b"));
    assert_eq!(index, vec!["a".to_string(), "b".to_string()]);
}

#[test]
fn scan_sorts_and_stored_shaders_shadow_bundled_ones() {
    let stored = vec!["wave".to_string(), "zeta".to_string(), "Beta".to_string()];
    let files = scan(BUNDLED, &stored);
    assert_eq!(names(&files), vec!["Beta", "alpha", "test_inputs", "wave", "zeta"]);
    assert_eq!(files[1].source, ShaderSource::Bundled("// alpha"));
    assert_eq!(files[3].source, ShaderSource::User);
    assert_eq!(files[4].source, ShaderSource::User);
    assert_eq!(position(&files, "wave"), Some(3));
    assert_eq!(position(&files, "nope"), None);
}

#[test]
fn names_order_like_strings() {
    for (a, b) in [("a", "b"), ("a", "ab"), ("", "a"), ("B", "a"), ("same", "same"), ("é", "z")] {
        assert_eq!(name_le(a, b), a <= b, "{a} <= {b}");
        assert_eq!(name_le(b, a), b <= a, "{b} <= {a}");
    }
}

#[test]
fn initial_selection_prefers_the_inputs_demo() {
    let editor = Editor::new(scan(BUNDLED, &Vec::new()));
    assert_eq!(editor.initial_selection(), Some(1));
    assert_eq!(editor.files[1].name, INITIAL_SHADER);
    let editor = Editor::new(scan(&BUNDLED[..2], &Vec::new()));
    assert_eq!(editor.initial_selection(), Some(0));
    let editor = Editor::new(Vec::new());
    assert_eq!(editor.initial_selection(), None);
}

#[test]
fn saving_a_bundled_shader_makes_a_stored_copy() {
    let mut editor = Editor::new(scan(BUNDLED, &Vec::new()));
    editor.loaded(2, "// wave".to_string());
    assert_eq!(editor.selected, Some(2));
    assert_eq!(editor.label(2), "wave");
    editor.dirty = true;
    assert!(editor.saved(2));
    assert!(!editor.dirty);
    assert_eq!(editor.files[2].source, ShaderSource::User);
    assert!(!editor.saved(2));
}

#[test]
fn creating_lists_the_new_shader_last() {
    let mut editor = Editor::new(scan(BUNDLED, &Vec::new()));
    editor.new_name = "  fresh one ".to_string();
    assert!(editor.can_create());
    let name = new_shader_name(&editor.new_name);
    let index = editor.created(name);
    assert_eq!(index, 3);
    assert_eq!(editor.files[3].name, "fresh_one");
    assert_eq!(editor.files[3].source, ShaderSource::User);
    assert_eq!(editor.new_name, "");
    assert!(!editor.can_create());
}

#[test]
fn failures_are_reported() {
    let mut editor = Editor::new(scan(BUNDLED, &vec!["mine".to_string()]));
    editor.source_missing(1);
    assert_eq!(editor.status.as_deref(), Some("stored shader `mine` is missing"));
    editor.save_failed("wave", "disk full");
    assert_eq!(editor.status.as_deref(), Some("failed to save `wave`: disk full"));
    editor.create_failed("new", "denied");
    assert_eq!(editor.status.as_deref(), Some("failed to create `new`: denied"));
    editor.loaded(0, String::new());
    assert_eq!(editor.status, None);
}

#[test]
fn checkerboard_pixels_are_exact() {
    let data = checkerboard_pixels(4, 2);
    assert_eq!(data.len(), 4 * 4 * 4);
    let pixel = |x: usize, y: usize| &data[(y * 4 + x) * 4..(y * 4 + x) * 4 + 4];
    assert_eq!(pixel(0, 0), &[230, 0, 0, 255]);
    assert_eq!(pixel(2, 0), &[30, 127, 0, 255]);
    assert_eq!(pixel(3, 1), &[30, 191, 63, 255]);
    assert_eq!(pixel(2, 2), &[230, 127, 127, 255]);
    assert_eq!(checkerboard_pixels(0, 1), Vec::<u8>::new());
}

#[test]
fn capture_runs_from_the_selected_device() {
    let devices = vec!["mic".to_string(), "line".to_string()];
    assert_eq!(capture_target(false, &devices, 1), None);
    assert_eq!(capture_target(true, &devices, 1), Some("line".to_string()));
    assert_eq!(capture_target(true, &devices, 5), Some(String::new()));
    assert_eq!(capture_target(true, &Vec::new(), 0), Some(String::new()));
    assert_eq!(initial_device(&devices, Some("line")), 1);
    assert_eq!(initial_device(&devices, Some("usb")), 0);
    assert_eq!(initial_device(&devices, None), 0);
}

#[test]
fn creating_an_existing_name_selects_it() {
    let mut editor = Editor::new(scan(BUNDLED, &Vec::new()));
    editor.new_name = " wave ".to_string();
    let (name, existing) = editor.create_target();
    assert_eq!(name, "wave");
    assert_eq!(existing, Some(2));
    editor.new_name = "new one".to_string();
    assert_eq!(editor.create_target(), ("new_one".to_string(), None));
}
