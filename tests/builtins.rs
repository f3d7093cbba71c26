use seq_actors::actor_builtins;
use seq_actors::builtins::RUNTIME_LIBRARY;

#[test]
fn test_compiler_config_has_builtins() {
    let builtins = actor_builtins();
    assert!(!builtins.is_empty());

    let names: Vec<&str> = builtins.iter().map(|b| b.0).collect();

    assert!(names.contains(&"actor-spawn"));
    assert!(names.contains(&"actor-send"));
    assert!(names.contains(&"actor-self"));
    assert!(names.contains(&"actor-state"));
    assert_eq!(RUNTIME_LIBRARY, "seq_actors_runtime");
}

#[test]
fn test_symbols_are_valid() {
    for builtin in actor_builtins() {
        for c in builtin.1.chars() {
            assert!(
                c.is_alphanumeric() || c == '_',
                "Invalid char '{}' in symbol '{}'",
                c,
                builtin.1
            );
        }
    }
}
