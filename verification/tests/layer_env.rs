use std::cmp::Ordering;

use libcnb::layer_env::{
    EnvDir, EnvFile, LayerDir, LayerEnv, LayerEnvDelta, ModificationBehavior, TargetLifecycle,
};
use libcnb::Env;

fn file(name: &str, contents: &str) -> EnvFile {
    EnvFile {
        name: name.as_bytes().to_vec(),
        contents: contents.as_bytes().to_vec(),
    }
}

fn environment_as_sorted_vector(environment: &Env) -> Vec<(String, String)> {
    let mut result: Vec<(String, String)> = environment
        .iter()
        .into_iter()
        .map(|(k, v)| (String::from_utf8(k).unwrap(), String::from_utf8(v).unwrap()))
        .collect();

    result.sort_by_key(|kv| kv.0.clone());
    result
}

fn pairs(expected: Vec<(&str, &str)>) -> Vec<(String, String)> {
    expected
        .into_iter()
        .map(|(k, v)| (k.to_string(), v.to_string()))
        .collect()
}

fn value_of(env: &Env, name: &str) -> Option<String> {
    env.get(name.as_bytes())
        .map(|value| String::from_utf8(value).unwrap())
}

fn empty_layer_dir(path: &str) -> LayerDir {
    LayerDir {
        path: path.as_bytes().to_vec(),
        has_bin: false,
        has_lib: false,
        env: None,
        env_build: None,
        env_launch: None,
    }
}

fn file_names(dir: &EnvDir) -> Vec<(String, String)> {
    dir.files
        .iter()
        .map(|f| {
            (
                String::from_utf8(f.name.clone()).unwrap(),
                String::from_utf8(f.contents.clone()).unwrap(),
            )
        })
        .collect()
}

#[test]
fn test_reference_impl_env_files_have_a_suffix_it_performs_the_matching_action() {
    let files = vec![
        file("VAR_APPEND.append", "value-append"),
        file("VAR_APPEND_NEW.append", "value-append"),
        file("VAR_APPEND_DELIM.append", "value-append-delim"),
        file("VAR_APPEND_DELIM_NEW.append", "value-append-delim"),
        file("VAR_APPEND_DELIM.delim", "[]"),
        file("VAR_APPEND_DELIM_NEW.delim", "[]"),
        file("VAR_PREPEND.prepend", "value-prepend"),
        file("VAR_PREPEND_NEW.prepend", "value-prepend"),
        file("VAR_PREPEND_DELIM.prepend", "value-prepend-delim"),
        file("VAR_PREPEND_DELIM_NEW.prepend", "value-prepend-delim"),
        file("VAR_PREPEND_DELIM.delim", "[]"),
        file("VAR_PREPEND_DELIM_NEW.delim", "[]"),
        file("VAR_DEFAULT.default", "value-default"),
        file("VAR_DEFAULT_NEW.default", "value-default"),
        file("VAR_OVERRIDE.override", "value-override"),
        file("VAR_OVERRIDE_NEW.override", "value-override"),
        file("VAR_IGNORE.ignore", "value-ignore"),
    ];

    let mut original_env = Env::empty();
    original_env.insert(b"VAR_APPEND", b"value-append-orig");
    original_env.insert(b"VAR_APPEND_DELIM", b"value-append-delim-orig");
    original_env.insert(b"VAR_PREPEND", b"value-prepend-orig");
    original_env.insert(b"VAR_PREPEND_DELIM", b"value-prepend-delim-orig");
    original_env.insert(b"VAR_DEFAULT", b"value-default-orig");
    original_env.insert(b"VAR_OVERRIDE", b"value-override-orig");

    let layer_env_delta = LayerEnvDelta::read_from_env_dir(&files);
    let modified_env = layer_env_delta.apply(&original_env);

    assert_eq!(
        pairs(vec![
            ("VAR_APPEND", "value-append-origvalue-append"),
            (
                "VAR_APPEND_DELIM",
                "value-append-delim-orig[]value-append-delim"
            ),
            ("VAR_APPEND_DELIM_NEW", "value-append-delim"),
            ("VAR_APPEND_NEW", "value-append"),
            ("VAR_DEFAULT", "value-default-orig"),
            ("VAR_DEFAULT_NEW", "value-default"),
            ("VAR_OVERRIDE", "value-override"),
            ("VAR_OVERRIDE_NEW", "value-override"),
            ("VAR_PREPEND", "value-prependvalue-prepend-orig"),
            (
                "VAR_PREPEND_DELIM",
                "value-prepend-delim[]value-prepend-delim-orig"
            ),
            ("VAR_PREPEND_DELIM_NEW", "value-prepend-delim"),
            ("VAR_PREPEND_NEW", "value-prepend"),
        ]),
        environment_as_sorted_vector(&modified_env)
    );
}

#[test]
fn test_reference_impl_env_files_have_no_suffix_default_action_is_override() {
    let files = vec![
        file("VAR_NORMAL", "value-normal"),
        file("VAR_NORMAL_NEW", "value-normal"),
        file("VAR_NORMAL_DELIM", "value-normal-delim"),
        file("VAR_NORMAL_DELIM_NEW", "value-normal-delim"),
        file("VAR_NORMAL_DELIM.delim", "[]"),
        file("VAR_NORMAL_DELIM_NEW.delim", "[]"),
    ];

    let mut original_env = Env::empty();
    original_env.insert(b"VAR_NORMAL", b"value-normal-orig");
    original_env.insert(b"VAR_NORMAL_DELIM", b"value-normal-delim-orig");

    let layer_env_delta = LayerEnvDelta::read_from_env_dir(&files);
    let modified_env = layer_env_delta.apply(&original_env);

    assert_eq!(
        pairs(vec![
            ("VAR_NORMAL", "value-normal"),
            ("VAR_NORMAL_DELIM", "value-normal-delim"),
            ("VAR_NORMAL_DELIM_NEW", "value-normal-delim"),
            ("VAR_NORMAL_NEW", "value-normal"),
        ]),
        environment_as_sorted_vector(&modified_env)
    );
}

#[test]
fn test_reference_impl_add_root_dir_should_append_posix_directories() {
    let layer_dir = LayerDir {
        has_bin: true,
        has_lib: true,
        ..empty_layer_dir("/tmp/layer")
    };

    let mut original_env = Env::empty();
    original_env.insert(b"PATH", b"some");
    original_env.insert(b"LD_LIBRARY_PATH", b"some-ld");
    original_env.insert(b"LIBRARY_PATH", b"some-library");

    let layer_env = LayerEnv::read_from_layer_dir(&layer_dir);
    let modified_env = layer_env.apply(TargetLifecycle::Build, &original_env);

    assert_eq!(
        pairs(vec![
            (
                "LD_LIBRARY_PATH",
                format!("{}:some-ld", "/tmp/layer/lib").as_str()
            ),
            (
                "LIBRARY_PATH",
                format!("{}:some-library", "/tmp/layer/lib").as_str()
            ),
            ("PATH", format!("{}:some", "/tmp/layer/bin").as_str())
        ]),
        environment_as_sorted_vector(&modified_env)
    );
}

#[test]
fn test_layer_env_delta_fs_read_write() {
    let mut original_delta = LayerEnvDelta::empty();
    original_delta.insert(ModificationBehavior::Default, b"FOO", b"BAR");
    original_delta.insert(ModificationBehavior::Append, b"APPEND_TO_ME", b"NEW_VALUE");

    let files = original_delta.write_to_env_dir();
    let disk_delta = LayerEnvDelta::read_from_env_dir(&files);

    assert_eq!(original_delta, disk_delta);
}

#[test]
fn test_layer_env_insert() {
    let mut layer_env = LayerEnv::empty();
    layer_env.insert(
        TargetLifecycle::Build,
        ModificationBehavior::Append,
        b"MAVEN_OPTS",
        b"-Dskip.tests=true",
    );

    layer_env.insert(
        TargetLifecycle::All,
        ModificationBehavior::Override,
        b"JAVA_TOOL_OPTIONS",
        b"-Xmx1G",
    );

    layer_env.insert(
        TargetLifecycle::Build,
        ModificationBehavior::Override,
        b"JAVA_TOOL_OPTIONS",
        b"-Xmx2G",
    );

    layer_env.insert(
        TargetLifecycle::Launch,
        ModificationBehavior::Append,
        b"JAVA_TOOL_OPTIONS",
        b"-XX:+UseSerialGC",
    );

    let result_env = layer_env.apply(TargetLifecycle::Build, &Env::empty());
    assert_eq!(
        pairs(vec![
            ("JAVA_TOOL_OPTIONS", "-Xmx2G"),
            ("MAVEN_OPTS", "-Dskip.tests=true")
        ]),
        environment_as_sorted_vector(&result_env)
    );
}

#[test]
fn test_modification_behavior_order() {
    let tests = vec![
        (
            ModificationBehavior::Append,
            ModificationBehavior::Default,
            Ordering::Less,
        ),
        (
            ModificationBehavior::Append,
            ModificationBehavior::Override,
            Ordering::Less,
        ),
        (
            ModificationBehavior::Prepend,
            ModificationBehavior::Append,
            Ordering::Greater,
        ),
        (
            ModificationBehavior::Default,
            ModificationBehavior::Delimiter,
            Ordering::Less,
        ),
        (
            ModificationBehavior::Default,
            ModificationBehavior::Default,
            Ordering::Equal,
        ),
    ];

    for (a, b, expected) in tests {
        assert_eq!(expected, a.cmp(&b))
    }
}

#[test]
fn test_layer_env_delta_eq() {
    let mut delta_1 = LayerEnvDelta::empty();
    delta_1.insert(ModificationBehavior::Default, b"a", b"avalue");
    delta_1.insert(ModificationBehavior::Default, b"b", b"bvalue");
    delta_1.insert(ModificationBehavior::Override, b"c", b"cvalue");

    let mut delta_2 = LayerEnvDelta::empty();
    delta_2.insert(ModificationBehavior::Default, b"b", b"bvalue");
    delta_2.insert(ModificationBehavior::Override, b"c", b"cvalue");
    delta_2.insert(ModificationBehavior::Default, b"a", b"avalue");

    assert_eq!(delta_1, delta_2);
}

#[test]
fn modification_behavior_ranks_are_fixed() {
    assert_eq!(ModificationBehavior::Append.index(), 0);
    assert_eq!(ModificationBehavior::Default.index(), 1);
    assert_eq!(ModificationBehavior::Delimiter.index(), 2);
    assert_eq!(ModificationBehavior::Override.index(), 3);
    assert_eq!(ModificationBehavior::Prepend.index(), 4);
    assert!(ModificationBehavior::Append < ModificationBehavior::Prepend);
    assert!(ModificationBehavior::Override > ModificationBehavior::Delimiter);
    assert_eq!(
        ModificationBehavior::Delimiter.partial_cmp(&ModificationBehavior::Delimiter),
        Some(Ordering::Equal)
    );
}

#[test]
fn modification_behavior_extensions() {
    assert_eq!(ModificationBehavior::Append.extension(), b"append");
    assert_eq!(ModificationBehavior::Default.extension(), b"default");
    assert_eq!(ModificationBehavior::Delimiter.extension(), b"delim");
    assert_eq!(ModificationBehavior::Override.extension(), b"override");
    assert_eq!(ModificationBehavior::Prepend.extension(), b"prepend");
    assert_eq!(
        ModificationBehavior::from_extension(b"delim"),
        Some(ModificationBehavior::Delimiter)
    );
    assert_eq!(ModificationBehavior::from_extension(b"delimiter"), None);
    assert_eq!(ModificationBehavior::from_extension(b"APPEND"), None);
    assert_eq!(ModificationBehavior::from_extension(b""), None);
    assert_eq!(ModificationBehavior::from_extension(&[0xff, 0xfe]), None);
}

#[test]
fn apply_follows_the_pass_order_not_the_insertion_order() {
    let mut delta = LayerEnvDelta::empty();
    delta.insert(ModificationBehavior::Override, b"VAR", b"hello");
    delta.insert(ModificationBehavior::Append, b"VAR", b"x");
    delta.insert(ModificationBehavior::Prepend, b"VAR", b"y");

    let result = delta.apply(&Env::empty());
    assert_eq!(value_of(&result, "VAR"), Some("yhello".to_string()));

    let mut reordered = LayerEnvDelta::empty();
    reordered.insert(ModificationBehavior::Prepend, b"VAR", b"y");
    reordered.insert(ModificationBehavior::Append, b"VAR", b"x");
    reordered.insert(ModificationBehavior::Override, b"VAR", b"hello");
    assert_eq!(reordered.apply(&Env::empty()), result);
}

#[test]
fn all_behaviors_on_one_variable() {
    let mut delta = LayerEnvDelta::empty();
    delta.insert(ModificationBehavior::Prepend, b"VAR", b"p");
    delta.insert(ModificationBehavior::Default, b"VAR", b"d");
    delta.insert(ModificationBehavior::Delimiter, b"VAR", b":");
    delta.insert(ModificationBehavior::Append, b"VAR", b"a");

    let mut base = Env::empty();
    base.insert(b"VAR", b"orig");
    assert_eq!(
        value_of(&delta.apply(&base), "VAR"),
        Some("p:orig:a".to_string())
    );
    assert_eq!(
        value_of(&delta.apply(&Env::empty()), "VAR"),
        Some("p:a".to_string())
    );
}

#[test]
fn default_never_clobbers() {
    let mut delta = LayerEnvDelta::empty();
    delta.insert(ModificationBehavior::Default, b"VAR", b"d");

    let mut base = Env::empty();
    base.insert(b"VAR", b"orig");
    assert_eq!(value_of(&delta.apply(&base), "VAR"), Some("orig".to_string()));
    assert_eq!(
        value_of(&delta.apply(&Env::empty()), "VAR"),
        Some("d".to_string())
    );
}

#[test]
fn default_keeps_an_empty_value() {
    let mut delta = LayerEnvDelta::empty();
    delta.insert(ModificationBehavior::Default, b"VAR", b"d");

    let mut base = Env::empty();
    base.insert(b"VAR", b"");
    assert_eq!(value_of(&delta.apply(&base), "VAR"), Some(String::new()));
}

#[test]
fn append_and_prepend_use_the_delimiter() {
    let mut delta = LayerEnvDelta::empty();
    delta.insert(ModificationBehavior::Append, b"VAR", b"b");
    delta.insert(ModificationBehavior::Delimiter, b"VAR", b":");

    let mut base = Env::empty();
    base.insert(b"VAR", b"a");
    assert_eq!(value_of(&delta.apply(&base), "VAR"), Some("a:b".to_string()));
    assert_eq!(
        value_of(&delta.apply(&Env::empty()), "VAR"),
        Some("b".to_string())
    );

    let mut empty_base = Env::empty();
    empty_base.insert(b"VAR", b"");
    assert_eq!(
        value_of(&delta.apply(&empty_base), "VAR"),
        Some("b".to_string())
    );

    let mut prepend = LayerEnvDelta::empty();
    prepend.insert(ModificationBehavior::Prepend, b"VAR", b"b");
    prepend.insert(ModificationBehavior::Delimiter, b"VAR", b":");
    assert_eq!(value_of(&prepend.apply(&base), "VAR"), Some("b:a".to_string()));
    assert_eq!(
        value_of(&prepend.apply(&Env::empty()), "VAR"),
        Some("b".to_string())
    );
}

#[test]
fn delimiter_of_another_variable_is_not_used() {
    let mut delta = LayerEnvDelta::empty();
    delta.insert(ModificationBehavior::Append, b"VAR", b"b");
    delta.insert(ModificationBehavior::Delimiter, b"OTHER", b":");

    let mut base = Env::empty();
    base.insert(b"VAR", b"a");
    let result = delta.apply(&base);
    assert_eq!(value_of(&result, "VAR"), Some("ab".to_string()));
    assert_eq!(value_of(&result, "OTHER"), None);
    assert_eq!(delta.delimiter_for(b"OTHER"), b":".to_vec());
    assert_eq!(delta.delimiter_for(b"VAR"), Vec::<u8>::new());
}

#[test]
fn apply_leaves_the_base_untouched() {
    let mut delta = LayerEnvDelta::empty();
    delta.insert(ModificationBehavior::Override, b"VAR", b"new");

    let mut base = Env::empty();
    base.insert(b"VAR", b"old");
    base.insert(b"KEEP", b"kept");
    let result = delta.apply(&base);
    assert_eq!(value_of(&base, "VAR"), Some("old".to_string()));
    assert_eq!(value_of(&result, "VAR"), Some("new".to_string()));
    assert_eq!(value_of(&result, "KEEP"), Some("kept".to_string()));
}

#[test]
fn inserting_twice_keeps_the_last_value() {
    let mut layer_env = LayerEnv::empty();
    layer_env.insert(
        TargetLifecycle::All,
        ModificationBehavior::Default,
        b"VAR",
        b"hello",
    );
    layer_env.insert(
        TargetLifecycle::All,
        ModificationBehavior::Append,
        b"VAR2",
        b"foo",
    );
    layer_env.insert(
        TargetLifecycle::All,
        ModificationBehavior::Append,
        b"VAR2",
        b"bar",
    );

    let modified_env = layer_env.apply(TargetLifecycle::Build, &Env::empty());
    assert_eq!(value_of(&modified_env, "VAR"), Some("hello".to_string()));
    assert_eq!(value_of(&modified_env, "VAR2"), Some("bar".to_string()));
}

#[test]
fn empty_layer_env_changes_nothing() {
    let layer_env = LayerEnv::empty();
    let mut env = Env::empty();
    env.insert(b"VAR", b"foo");

    let modified_env = layer_env.apply(TargetLifecycle::Build, &env);
    assert_eq!(env, modified_env);
}

#[test]
fn layer_env_applies_all_before_the_target() {
    let mut layer_env = LayerEnv::empty();
    layer_env.insert(
        TargetLifecycle::All,
        ModificationBehavior::Append,
        b"VAR",
        b"bar",
    );
    layer_env.insert(
        TargetLifecycle::All,
        ModificationBehavior::Default,
        b"VAR2",
        b"default",
    );
    layer_env.insert(
        TargetLifecycle::Build,
        ModificationBehavior::Append,
        b"VAR",
        b"baz",
    );

    let mut env = Env::empty();
    env.insert(b"VAR", b"foo");
    env.insert(b"VAR2", b"previous-value");

    let modified_env = layer_env.apply(TargetLifecycle::Build, &env);
    assert_eq!(value_of(&modified_env, "VAR"), Some("foobarbaz".to_string()));
    assert_eq!(
        value_of(&modified_env, "VAR2"),
        Some("previous-value".to_string())
    );
    let for_all = layer_env.apply(TargetLifecycle::All, &env);
    assert_eq!(value_of(&for_all, "VAR"), Some("foobar".to_string()));
}

#[test]
fn implicit_paths_from_bin_and_lib() {
    let layer_dir = LayerDir {
        has_bin: true,
        has_lib: true,
        ..empty_layer_dir("/layers/tool")
    };
    let layer_env = LayerEnv::read_from_layer_dir(&layer_dir);

    let expected = pairs(vec![
        ("LD_LIBRARY_PATH", "/layers/tool/lib"),
        ("LIBRARY_PATH", "/layers/tool/lib"),
        ("PATH", "/layers/tool/bin"),
    ]);
    assert_eq!(
        environment_as_sorted_vector(&layer_env.apply(TargetLifecycle::Build, &Env::empty())),
        expected
    );
    assert_eq!(
        environment_as_sorted_vector(&layer_env.apply(TargetLifecycle::Launch, &Env::empty())),
        expected
    );
    assert_eq!(
        environment_as_sorted_vector(&layer_env.apply(TargetLifecycle::All, &Env::empty())),
        expected
    );
}

#[test]
fn bin_alone_sets_only_path() {
    let layer_dir = LayerDir {
        has_bin: true,
        ..empty_layer_dir("/layers/tool/")
    };
    let layer_env = LayerEnv::read_from_layer_dir(&layer_dir);
    assert_eq!(
        environment_as_sorted_vector(&layer_env.apply(TargetLifecycle::Launch, &Env::empty())),
        pairs(vec![("PATH", "/layers/tool/bin")])
    );
}

#[test]
fn build_entries_are_not_seen_at_launch() {
    let layer_dir = LayerDir {
        has_bin: true,
        env: Some(vec![file("ZERO_WING.default", "ALL_YOUR_BASE_ARE_BELONG_TO_US")]),
        env_build: Some(vec![file("CPATH", "/layers/tool/include")]),
        env_launch: Some(vec![file("PORT.default", "8080")]),
        ..empty_layer_dir("/layers/tool")
    };
    let layer_env = LayerEnv::read_from_layer_dir(&layer_dir);

    let at_launch = layer_env.apply(TargetLifecycle::Launch, &Env::empty());
    assert_eq!(
        environment_as_sorted_vector(&at_launch),
        pairs(vec![
            ("PATH", "/layers/tool/bin"),
            ("PORT", "8080"),
            ("ZERO_WING", "ALL_YOUR_BASE_ARE_BELONG_TO_US"),
        ])
    );
    let at_build = layer_env.apply(TargetLifecycle::Build, &Env::empty());
    assert_eq!(
        environment_as_sorted_vector(&at_build),
        pairs(vec![
            ("CPATH", "/layers/tool/include"),
            ("PATH", "/layers/tool/bin"),
            ("ZERO_WING", "ALL_YOUR_BASE_ARE_BELONG_TO_US"),
        ])
    );
}

#[test]
fn explicit_entries_are_applied_after_implicit_paths() {
    let layer_dir = LayerDir {
        has_bin: true,
        env: Some(vec![file("PATH.append", "/opt/bin"), file("PATH.delim", ":")]),
        ..empty_layer_dir("/layers/tool")
    };
    let layer_env = LayerEnv::read_from_layer_dir(&layer_dir);
    let mut base = Env::empty();
    base.insert(b"PATH", b"/usr/bin");
    assert_eq!(
        value_of(&layer_env.apply(TargetLifecycle::Build, &base), "PATH"),
        Some("/layers/tool/bin:/usr/bin:/opt/bin".to_string())
    );
}

#[test]
fn unknown_extensions_are_ignored() {
    let delta = LayerEnvDelta::read_from_env_dir(&[file("FOO.ignore", "x")]);
    assert_eq!(delta, LayerEnvDelta::empty());
    assert!(delta.write_to_env_dir().is_empty());
    for behavior in [
        ModificationBehavior::Append,
        ModificationBehavior::Default,
        ModificationBehavior::Delimiter,
        ModificationBehavior::Override,
        ModificationBehavior::Prepend,
    ] {
        assert_eq!(delta.get(behavior, b"FOO"), None);
    }
}

#[test]
fn undecodable_extensions_are_ignored() {
    let odd = EnvFile {
        name: vec![b'F', b'O', b'O', b'.', 0xff, 0xfe],
        contents: b"x".to_vec(),
    };
    let delta = LayerEnvDelta::read_from_env_dir(&[odd]);
    assert_eq!(delta, LayerEnvDelta::empty());
}

#[test]
fn names_and_values_need_not_be_unicode() {
    let odd = EnvFile {
        name: vec![0xff, b'A', b'.', b'a', b'p', b'p', b'e', b'n', b'd'],
        contents: vec![0x00, 0xff, b'\n'],
    };
    let delta = LayerEnvDelta::read_from_env_dir(&[odd]);
    assert_eq!(
        delta.get(ModificationBehavior::Append, &[0xff, b'A']),
        Some(&vec![0x00, 0xff, b'\n'])
    );
    let result = delta.apply(&Env::empty());
    assert_eq!(result.get(&[0xff, b'A']), Some(vec![0x00, 0xff, b'\n']));
}

#[test]
fn file_contents_are_kept_verbatim() {
    let delta = LayerEnvDelta::read_from_env_dir(&[file("FOO", "bar\n")]);
    assert_eq!(
        delta.get(ModificationBehavior::Override, b"FOO"),
        Some(&b"bar\n".to_vec())
    );
    let padded = LayerEnvDelta::read_from_env_dir(&[file("FOO.append", "  $HOME \r\n")]);
    assert_eq!(
        padded.get(ModificationBehavior::Append, b"FOO"),
        Some(&b"  $HOME \r\n".to_vec())
    );
}

#[test]
fn a_later_file_for_the_same_entry_counts() {
    let delta =
        LayerEnvDelta::read_from_env_dir(&[file("FOO", "first"), file("FOO.override", "second")]);
    assert_eq!(
        delta.get(ModificationBehavior::Override, b"FOO"),
        Some(&b"second".to_vec())
    );
}

#[test]
fn files_are_written_in_key_order_with_explicit_extensions() {
    let mut delta = LayerEnvDelta::empty();
    delta.insert(ModificationBehavior::Prepend, b"B", b"5");
    delta.insert(ModificationBehavior::Override, b"B", b"4");
    delta.insert(ModificationBehavior::Delimiter, b"B", b"3");
    delta.insert(ModificationBehavior::Default, b"B", b"2");
    delta.insert(ModificationBehavior::Append, b"B", b"1");
    delta.insert(ModificationBehavior::Append, b"A", b"0");

    let files: Vec<(String, String)> = delta
        .write_to_env_dir()
        .into_iter()
        .map(|f| {
            (
                String::from_utf8(f.name).unwrap(),
                String::from_utf8(f.contents).unwrap(),
            )
        })
        .collect();
    assert_eq!(
        files,
        pairs(vec![
            ("A.append", "0"),
            ("B.append", "1"),
            ("B.default", "2"),
            ("B.delim", "3"),
            ("B.override", "4"),
            ("B.prepend", "5"),
        ])
    );
}

#[test]
fn round_trip_keeps_dotted_names() {
    let mut delta = LayerEnvDelta::empty();
    delta.insert(ModificationBehavior::Override, b"a.b", b"1");
    delta.insert(ModificationBehavior::Append, b".hidden", b"2");
    delta.insert(ModificationBehavior::Delimiter, b"x.append", b"3");
    delta.insert(ModificationBehavior::Default, b".", b"4");
    delta.insert(ModificationBehavior::Prepend, b"..", b"5");

    let files = delta.write_to_env_dir();
    assert_eq!(LayerEnvDelta::read_from_env_dir(&files), delta);
}

#[test]
fn round_trip_loses_an_empty_name() {
    let mut delta = LayerEnvDelta::empty();
    delta.insert(ModificationBehavior::Append, b"", b"value");

    let files = delta.write_to_env_dir();
    assert_eq!(files.len(), 1);
    assert_eq!(files[0].name, b".append".to_vec());
    let read = LayerEnvDelta::read_from_env_dir(&files);
    assert_eq!(
        read.get(ModificationBehavior::Override, b".append"),
        Some(&b"value".to_vec())
    );
    assert_ne!(read, delta);
}

#[test]
fn deltas_with_different_entries_differ() {
    let mut delta_1 = LayerEnvDelta::empty();
    delta_1.insert(ModificationBehavior::Default, b"a", b"avalue");
    let mut delta_2 = LayerEnvDelta::empty();
    delta_2.insert(ModificationBehavior::Override, b"a", b"avalue");
    let mut delta_3 = LayerEnvDelta::empty();
    delta_3.insert(ModificationBehavior::Default, b"a", b"other");

    assert_ne!(delta_1, delta_2);
    assert_ne!(delta_1, delta_3);
    assert_ne!(delta_1, LayerEnvDelta::empty());
}

#[test]
fn process_entries_are_isolated() {
    let mut layer_env = LayerEnv::empty();
    layer_env.insert(
        TargetLifecycle::Process("worker".to_string()),
        ModificationBehavior::Override,
        b"QUEUE",
        b"jobs",
    );

    let base = Env::empty();
    assert_eq!(layer_env.apply(TargetLifecycle::Build, &base), base);
    assert_eq!(layer_env.apply(TargetLifecycle::Launch, &base), base);
    assert_eq!(layer_env.apply(TargetLifecycle::All, &base), base);
    assert_eq!(
        layer_env.apply(TargetLifecycle::Process("other".to_string()), &base),
        base
    );
    assert_eq!(
        value_of(
            &layer_env.apply(TargetLifecycle::Process("worker".to_string()), &base),
            "QUEUE"
        ),
        Some("jobs".to_string())
    );
}

#[test]
fn process_entries_accumulate() {
    let mut layer_env = LayerEnv::empty();
    layer_env.insert(
        TargetLifecycle::Process("web".to_string()),
        ModificationBehavior::Override,
        b"PORT",
        b"80",
    );
    layer_env.insert(
        TargetLifecycle::Process("web".to_string()),
        ModificationBehavior::Override,
        b"HOST",
        b"example",
    );
    layer_env.insert(
        TargetLifecycle::Process("web".to_string()),
        ModificationBehavior::Override,
        b"PORT",
        b"8080",
    );
    layer_env.insert(
        TargetLifecycle::All,
        ModificationBehavior::Override,
        b"PORT",
        b"1",
    );

    let result = layer_env.apply(TargetLifecycle::Process("web".to_string()), &Env::empty());
    assert_eq!(
        environment_as_sorted_vector(&result),
        pairs(vec![("HOST", "example"), ("PORT", "8080")])
    );
}

#[test]
fn process_launch_does_not_see_launch_entries() {
    let mut layer_env = LayerEnv::empty();
    layer_env.insert(
        TargetLifecycle::Launch,
        ModificationBehavior::Override,
        b"MODE",
        b"launch",
    );
    let result = layer_env.apply(
        TargetLifecycle::Process("web".to_string()),
        &Env::empty(),
    );
    assert_eq!(value_of(&result, "MODE"), None);
}

#[test]
fn layer_env_equality_ignores_insertion_order() {
    let mut first = LayerEnv::empty();
    first.insert(
        TargetLifecycle::Process("a".to_string()),
        ModificationBehavior::Append,
        b"X",
        b"1",
    );
    first.insert(
        TargetLifecycle::Process("b".to_string()),
        ModificationBehavior::Append,
        b"Y",
        b"2",
    );
    first.insert(
        TargetLifecycle::Build,
        ModificationBehavior::Default,
        b"Z",
        b"3",
    );
    let mut second = LayerEnv::empty();
    second.insert(
        TargetLifecycle::Build,
        ModificationBehavior::Default,
        b"Z",
        b"3",
    );
    second.insert(
        TargetLifecycle::Process("b".to_string()),
        ModificationBehavior::Append,
        b"Y",
        b"2",
    );
    second.insert(
        TargetLifecycle::Process("a".to_string()),
        ModificationBehavior::Append,
        b"X",
        b"1",
    );
    assert_eq!(first, second);

    second.insert(
        TargetLifecycle::Process("a".to_string()),
        ModificationBehavior::Append,
        b"X",
        b"changed",
    );
    assert_ne!(first, second);
    assert_ne!(first, LayerEnv::empty());
}

#[test]
fn layer_env_is_written_to_four_kinds_of_directories() {
    let mut layer_env = LayerEnv::empty();
    layer_env.insert(
        TargetLifecycle::Build,
        ModificationBehavior::Default,
        b"FOO",
        b"bar",
    );
    layer_env.insert(
        TargetLifecycle::All,
        ModificationBehavior::Append,
        b"PATH",
        b"some-path",
    );
    layer_env.insert(
        TargetLifecycle::Process("worker".to_string()),
        ModificationBehavior::Override,
        b"QUEUE",
        b"jobs",
    );
    layer_env.insert(
        TargetLifecycle::Process("web".to_string()),
        ModificationBehavior::Override,
        b"PORT",
        b"8080",
    );

    let dirs = layer_env.write_to_layer_dir(b"/layers/tool");
    let paths: Vec<String> = dirs
        .iter()
        .map(|d| String::from_utf8(d.path.clone()).unwrap())
        .collect();
    assert_eq!(
        paths,
        vec![
            "/layers/tool/env".to_string(),
            "/layers/tool/env.build".to_string(),
            "/layers/tool/env.launch".to_string(),
            "/layers/tool/env.launch/web".to_string(),
            "/layers/tool/env.launch/worker".to_string(),
        ]
    );
    assert_eq!(file_names(&dirs[0]), pairs(vec![("PATH.append", "some-path")]));
    assert_eq!(file_names(&dirs[1]), pairs(vec![("FOO.default", "bar")]));
    assert_eq!(file_names(&dirs[2]), pairs(vec![]));
    assert_eq!(file_names(&dirs[3]), pairs(vec![("PORT.override", "8080")]));
    assert_eq!(file_names(&dirs[4]), pairs(vec![("QUEUE.override", "jobs")]));
}

#[test]
fn layer_env_round_trip_without_processes() {
    let mut layer_env = LayerEnv::empty();
    layer_env.insert(
        TargetLifecycle::Build,
        ModificationBehavior::Default,
        b"FOO",
        b"bar",
    );
    layer_env.insert(
        TargetLifecycle::All,
        ModificationBehavior::Append,
        b"PATH",
        b"some-path",
    );
    layer_env.insert(
        TargetLifecycle::Launch,
        ModificationBehavior::Prepend,
        b"PATH",
        b"first",
    );

    let mut dirs = layer_env.write_to_layer_dir(b"/layers/tool");
    let env_launch = dirs.pop().unwrap().files;
    let env_build = dirs.pop().unwrap().files;
    let env = dirs.pop().unwrap().files;
    let read = LayerEnv::read_from_layer_dir(&LayerDir {
        env: Some(env),
        env_build: Some(env_build),
        env_launch: Some(env_launch),
        ..empty_layer_dir("/layers/tool")
    });
    assert_eq!(read, layer_env);
}

#[test]
fn target_lifecycle_equality() {
    assert_eq!(TargetLifecycle::All, TargetLifecycle::All);
    assert_ne!(TargetLifecycle::Build, TargetLifecycle::Launch);
    assert_eq!(
        TargetLifecycle::Process("web".to_string()),
        TargetLifecycle::Process("web".to_string())
    );
    assert_ne!(
        TargetLifecycle::Process("web".to_string()),
        TargetLifecycle::Process("worker".to_string())
    );
    assert_ne!(
        TargetLifecycle::Process("web".to_string()),
        TargetLifecycle::Launch
    );
}
