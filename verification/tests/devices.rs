use upalla::blackhole::{
    detection_supported, find_device_by_name, fourcc, get_object_list, has_external_user, object_count,
    AudioObjectPropertyAddress, Direction, NamedDevice, ProcessInfo, ELEMENT_MAIN, PROP_DEVICES,
    PROP_NAME, PROP_PROCESS_DEVICES, PROP_PROCESS_LIST, PROP_PROCESS_PID,
    PROP_PROCESS_RUNNING_INPUT, PROP_PROCESS_RUNNING_OUTPUT, SCOPE_GLOBAL, SCOPE_INPUT,
    SCOPE_OUTPUT,
};
use upalla::devices::{
    combo_entries, combo_pick, combo_selected, default_display, default_label,
    find_blackhole_input_excluding, find_blackhole_output, find_input_by_name, find_output_by_name,
    menu_lines, menu_titles, position, resolve_default, resolve_default_devices, selected_sink,
    selected_source, without_own, DeviceInfo, DeviceLists, DevicePick, DEFAULT_SINK, DEFAULT_SOURCE,
};
use upalla::server::{
    describe, has_sink_inputs, is_silenced, load_order, module_index, restore_sink, restore_source,
    source_output_descriptions, stale_modules, OwnModule, RegisteredModules, SourceOutput, REMAP_ARGS,
    SINK_ARGS, SINK_MONITOR_NAME, SINK_NAME, SRC_SINK_ARGS, SRC_SINK_NAME, SRC_VIRTUAL_NAME,
};
use upalla::text::{
    chars_of, contains, parse_number, same_texts, split_lines, strip_prefix, trim,
};

fn device(name: &str, description: &str) -> DeviceInfo {
    DeviceInfo { name: name.to_string(), description: description.to_string() }
}

fn names(list: &[&str]) -> Vec<String> {
    list.iter().map(|s| s.to_string()).collect()
}

#[test]
fn own_devices_are_never_routed_to() {
    let sinks = vec![
        device("upalla_sink", "Upalla Denoised Output"),
        device("hdmi", "HDMI"),
        device("speakers", "Speakers"),
    ];
    let sources = vec![device("upalla_virtual", "Upalla Denoised Input")];
    let kept = without_own(&sinks);
    assert_eq!(kept.len(), 2);
    assert_eq!(kept[0].name, "hdmi");
    assert_eq!(position(&sinks, &"speakers".to_string()), Some(2));
    assert_eq!(position(&sinks, &"none".to_string()), None);

    let (sink, source) = resolve_default_devices(
        "speakers".to_string(),
        "upalla_virtual".to_string(),
        &sinks,
        &sources,
    );
    assert_eq!(sink, "speakers");
    assert_eq!(source, DEFAULT_SOURCE);
    let (sink, _) =
        resolve_default_devices("upalla_sink".to_string(), String::new(), &sinks, &sources);
    assert_eq!(sink, "hdmi", "the first device that is not this application's own");
    assert_eq!(resolve_default(String::new(), &Vec::new(), DEFAULT_SINK), DEFAULT_SINK);
}

#[test]
fn menus_show_descriptions() {
    let devices = vec![device("a", "Alpha"), device("b", "Beta")];
    assert_eq!(default_display(&devices, &"b".to_string()), "Beta");
    assert_eq!(default_display(&devices, &"c".to_string()), "c");
    assert_eq!(default_label(&"Beta".to_string()), "Default (Beta)");
    assert_eq!(menu_lines(&devices, &"Beta".to_string()), names(&["Default (Beta)", "Alpha", "Beta"]));
    let none = DeviceLists::none();
    assert!(none.sinks.is_empty() && none.sources.is_empty());
    assert_eq!(none.default_sink, "");
    assert_eq!(none.default_source, "");
}

#[test]
fn pickers_start_with_the_default() {
    let devices = vec![device("a", "Alpha"), device("b", "Beta")];
    let entries = combo_entries(&devices, DEFAULT_SINK, &"Alpha".to_string());
    assert_eq!(entries.len(), 3);
    assert_eq!(entries[0].name, DEFAULT_SINK);
    assert_eq!(entries[0].label, "Default (Alpha)");
    assert_eq!(entries[2].name, "b");
    assert_eq!(entries[2].label, "Beta");
    assert_eq!(combo_selected(&entries, &"b".to_string()), 2);
    assert_eq!(combo_selected(&entries, &"gone".to_string()), 0);
    assert_eq!(combo_pick(&entries, 1, "b".to_string()), "a");
    assert_eq!(combo_pick(&entries, 3, "b".to_string()), "b");
}

#[test]
fn devices_are_found_by_name() {
    let list = names(&["Built-in", "BlackHole 2ch", "BlackHole 16ch"]);
    assert_eq!(find_output_by_name(&list, &DEFAULT_SINK.to_string()), DevicePick::Default);
    assert_eq!(find_output_by_name(&list, &String::new()), DevicePick::Default);
    assert_eq!(find_output_by_name(&list, &"BlackHole 2ch".to_string()), DevicePick::At(1));
    assert_eq!(find_output_by_name(&list, &DEFAULT_SOURCE.to_string()), DevicePick::Missing);
    assert_eq!(find_input_by_name(&list, &DEFAULT_SOURCE.to_string()), DevicePick::Default);
    assert_eq!(find_input_by_name(&list, &"gone".to_string()), DevicePick::Missing);
    assert_eq!(find_blackhole_output(&list), Some(1));
    assert_eq!(find_blackhole_output(&names(&["Built-in"])), None);
}

#[test]
fn the_second_blackhole_keeps_the_chains_apart() {
    let list = names(&["BlackHole 2ch", "Built-in", "BlackHole 16ch"]);
    let excluded = Some("BlackHole 2ch".to_string());
    assert_eq!(find_blackhole_input_excluding(&list, &excluded), Some(2));
    assert_eq!(find_blackhole_input_excluding(&list, &None), Some(0));
    assert_eq!(find_blackhole_input_excluding(&list[..2].to_vec(), &excluded), Some(0));
    assert_eq!(find_blackhole_input_excluding(&names(&["Built-in"]), &excluded), None);
    assert_eq!(menu_titles(&list), names(&["Default", "Built-in"]));
    assert_eq!(selected_sink(Some("Default".to_string())), DEFAULT_SINK);
    assert_eq!(selected_sink(None), DEFAULT_SINK);
    assert_eq!(selected_sink(Some("Built-in".to_string())), "Built-in");
    assert_eq!(selected_source(None), DEFAULT_SOURCE);
    assert_eq!(selected_source(Some("Default".to_string())), DEFAULT_SOURCE);
    assert_eq!(selected_source(Some("Mic".to_string())), "Mic");
}

#[test]
fn property_codes_are_four_characters() {
    assert_eq!(fourcc(b"glob"), SCOPE_GLOBAL);
    assert_eq!(fourcc(b"inpt"), SCOPE_INPUT);
    assert_eq!(fourcc(b"outp"), SCOPE_OUTPUT);
    assert_eq!(fourcc(b"dev#"), PROP_DEVICES);
    assert_eq!(fourcc(b"lnam"), PROP_NAME);
    assert_eq!(fourcc(b"prs#"), PROP_PROCESS_LIST);
    assert_eq!(fourcc(b"ppid"), PROP_PROCESS_PID);
    assert_eq!(fourcc(b"piri"), PROP_PROCESS_RUNNING_INPUT);
    assert_eq!(fourcc(b"piro"), PROP_PROCESS_RUNNING_OUTPUT);
    assert_eq!(fourcc(b"pdv#"), PROP_PROCESS_DEVICES);
    assert_eq!(fourcc(&[0xff, 0, 0, 1]), 0xff00_0001);
    let address = AudioObjectPropertyAddress::new(PROP_NAME, SCOPE_GLOBAL);
    assert_eq!((address.selector, address.scope, address.element), (PROP_NAME, SCOPE_GLOBAL, ELEMENT_MAIN));
    assert_eq!(Direction::Capture.running_selector(), PROP_PROCESS_RUNNING_INPUT);
    assert_eq!(Direction::Playback.running_selector(), PROP_PROCESS_RUNNING_OUTPUT);
    assert_eq!(Direction::Capture.scope(), SCOPE_INPUT);
    assert_eq!(Direction::Playback.scope(), SCOPE_OUTPUT);
    assert_eq!(object_count(11), 2);
}

#[test]
fn lists_of_objects_are_read_as_far_as_they_are_filled() {
    let never = |_: usize| -> Option<(u32, Vec<u32>)> { panic!("there is nothing to read") };
    assert_eq!(get_object_list(None, never), None, "the size could not be had");
    assert_eq!(get_object_list(Some(3), never), Some(vec![]));
    let read = |count: usize| {
        assert_eq!(count, 3);
        Some((8, vec![5, 6, 0]))
    };
    assert_eq!(get_object_list(Some(13), read), Some(vec![5, 6]));
    assert_eq!(get_object_list(Some(4), |_: usize| Some((400, vec![7]))), Some(vec![7]));
    assert_eq!(get_object_list(Some(4), |_: usize| None), None);
}

#[test]
fn only_other_processes_count_as_users() {
    let process = |pid: u32, running: u32, devices: Vec<u32>| ProcessInfo {
        pid: Some(pid),
        running: Some(running),
        devices: Some(devices),
    };
    assert_eq!(has_external_user(&None, 1, 7), None);
    assert_eq!(has_external_user(&Some(vec![process(1, 1, vec![7])]), 1, 7), Some(false));
    assert_eq!(has_external_user(&Some(vec![process(2, 0, vec![7])]), 1, 7), Some(false));
    assert_eq!(has_external_user(&Some(vec![process(2, 1, vec![8])]), 1, 7), Some(false));
    assert_eq!(
        has_external_user(&Some(vec![process(1, 1, vec![7]), process(2, 1, vec![8, 7])]), 1, 7),
        Some(true)
    );
    let unknown = ProcessInfo { pid: None, running: Some(1), devices: Some(vec![7]) };
    assert_eq!(has_external_user(&Some(vec![unknown]), 1, 7), Some(true));
    assert!(detection_supported(&Some(vec![])));
    assert!(!detection_supported(&None));
    let devices = Some(vec![
        NamedDevice { id: 3, name: None },
        NamedDevice { id: 4, name: Some("BlackHole 2ch".to_string()) },
    ]);
    assert_eq!(find_device_by_name(&devices, &"BlackHole 2ch".to_string()), Some(4));
    assert_eq!(find_device_by_name(&devices, &"BlackHole".to_string()), None);
    assert_eq!(find_device_by_name(&None, &"BlackHole 2ch".to_string()), None);
}

#[test]
fn stale_modules_are_those_that_mention_this_application() {
    let listing = "Module #12\n\tName: module-null-sink\n\tArgument: sink_name=upalla_sink x\r\nModule #13\n\tName: module-alsa-card\nModule #x\n\tArgument: upalla\nModule # 14 \n\tupalla\n\tupalla again";
    assert_eq!(stale_modules(listing), vec![12, 14, 14]);
    assert_eq!(stale_modules("\tupalla\nModule #4294967296\nupalla"), Vec::<u32>::new());
    assert_eq!(stale_modules(""), Vec::<u32>::new());
}

#[test]
fn modules_are_unloaded_before_what_they_read() {
    let mut modules = RegisteredModules { sink: Some(1), source: Some(2), remap: Some(3) };
    assert_eq!(modules.unload_order(), vec![3, 2, 1]);
    assert_eq!(modules, RegisteredModules::none());
    assert_eq!(modules.unload_order(), Vec::<u32>::new());
    assert_eq!(module_index(0), None);
    assert_eq!(module_index(9), Some(9));
}

#[test]
fn modules_are_loaded_after_what_they_read() {
    let order = load_order();
    assert_eq!(order, vec![OwnModule::Sink, OwnModule::Source, OwnModule::Remap]);
    let mut modules = RegisteredModules::none();
    for (k, module) in order.iter().enumerate() {
        modules.loaded(*module, k as u32 + 4);
    }
    assert_eq!(modules, RegisteredModules { sink: Some(4), source: Some(5), remap: Some(6) });
    assert_eq!(modules.unload_order(), vec![6, 5, 4], "backwards");
    modules.loaded(OwnModule::Source, 0);
    assert_eq!(modules, RegisteredModules::none(), "what could not be loaded is not unloaded");
    assert_eq!(OwnModule::Sink.module_name(), "module-null-sink");
    assert_eq!(OwnModule::Remap.module_name(), "module-remap-source");
    assert_eq!(OwnModule::Source.args(), SRC_SINK_ARGS);
    assert_eq!(OwnModule::Remap.args(), REMAP_ARGS);
}

#[test]
fn silenced_devices_are_restored() {
    assert!(is_silenced(true, &vec![]));
    assert!(is_silenced(false, &vec![false, true]));
    assert!(!is_silenced(false, &vec![false, false]));
    assert_eq!(
        restore_source("mic"),
        vec![names(&["set-source-mute", "mic", "0"]), names(&["set-source-volume", "mic", "100%"])]
    );
    assert_eq!(
        restore_sink("out"),
        vec![names(&["set-sink-mute", "out", "0"]), names(&["set-sink-volume", "out", "100%"])]
    );
}

#[test]
fn streams_are_matched_by_their_device() {
    assert!(has_sink_inputs(Some(5), &vec![4, 5]));
    assert!(!has_sink_inputs(Some(5), &vec![4]));
    assert!(has_sink_inputs(Some(0), &vec![0]), "indices start at zero");
    assert!(!has_sink_inputs(None, &vec![0]), "an unknown sink has no streams");
    let output = |source: u32, app: &str| SourceOutput {
        source,
        app: app.to_string(),
        media: "m".to_string(),
        binary: "b".to_string(),
        pid: "7".to_string(),
    };
    assert_eq!(describe(&output(1, "App")), "App (media=m, bin=b, pid=7)");
    assert_eq!(describe(&output(1, "")), "media=m, bin=b, pid=7");
    let outputs = vec![output(1, "A"), output(2, "B"), output(1, "")];
    assert_eq!(
        source_output_descriptions(Some(1), &outputs),
        names(&["A (media=m, bin=b, pid=7)", "media=m, bin=b, pid=7"])
    );
    assert_eq!(
        source_output_descriptions(Some(0), &vec![output(0, "A")]),
        names(&["A (media=m, bin=b, pid=7)"])
    );
    assert_eq!(source_output_descriptions(None, &vec![output(0, "A")]), Vec::<String>::new());
}

#[test]
fn module_arguments_name_the_virtual_devices() {
    assert!(SINK_ARGS.starts_with(&format!("sink_name={SINK_NAME} ")));
    assert!(SRC_SINK_ARGS.starts_with(&format!("sink_name={SRC_SINK_NAME} ")));
    assert!(REMAP_ARGS.starts_with(&format!("source_name={SRC_VIRTUAL_NAME} ")));
    assert!(REMAP_ARGS.ends_with(&format!("master={SRC_SINK_NAME}.monitor")));
    assert_eq!(SINK_MONITOR_NAME, format!("{SINK_NAME}.monitor"));
}

#[test]
fn text_is_searched_split_and_trimmed() {
    assert!(contains("xupallay", "upalla"));
    assert!(!contains("upall", "upalla"));
    assert!(contains("", ""));
    assert!(same_texts(&names(&["a", "b"]), &names(&["a", "b"])));
    assert!(!same_texts(&names(&["a", "b"]), &names(&["b", "a"])));
    assert!(!same_texts(&names(&["a"]), &names(&["a", "b"])));
    let text = |s: &str| chars_of(s);
    assert_eq!(strip_prefix(&text("Module #3"), &text("Module #")), Some(text("3")));
    assert_eq!(strip_prefix(&text("Mod"), &text("Module #")), None);
    assert_eq!(trim(&text(" \t\u{a0}x y\n")), text("x y"));
    assert_eq!(trim(&text(" \u{2003} ")), text(""));
    assert_eq!(parse_number(&text("+0042"), 100), Some(42));
    assert_eq!(parse_number(&text("101"), 100), None);
    assert_eq!(parse_number(&text("99999999999999999999999999"), usize::MAX), None);
    assert_eq!(parse_number(&text("18446744073709551615"), usize::MAX), Some(usize::MAX));
    assert_eq!(parse_number(&text(""), 100), None);
    assert_eq!(parse_number(&text("+"), 100), None);
    assert_eq!(parse_number(&text("-1"), 100), None);
    assert_eq!(
        split_lines(&text("a\r\nb\n\nc\r")),
        vec![text("a"), text("b"), text(""), text("c\r")]
    );
    assert_eq!(split_lines(&text("a\n")), vec![text("a")]);
    assert_eq!(split_lines(&text("")), Vec::<Vec<char>>::new());
}
