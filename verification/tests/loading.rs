use shoumei::ErrorEmitter;
use shoumei::FileContents;
use shoumei::Module;
use shoumei::ModuleLoader;
use shoumei::ModulePath;
use shoumei::Severity;
use shoumei::SourceLine;

fn mp(segments: &[&str]) -> ModulePath {
    ModulePath(segments.iter().map(|s| s.to_string()).collect())
}

fn good_file() -> FileContents {
    FileContents::Lines(vec![SourceLine::Text("content".to_string())])
}

#[test]
fn missing_file_leaves_absent_entry_and_one_error() {
    let mut loader = ModuleLoader::new(ErrorEmitter::new());
    let main = mp(&["main"]);
    loader.load(main.clone(), FileContents::Unopenable);
    assert!(loader.cached(&main) == Some(&None));
    let emitter = loader.take_error_emitter();
    let messages = emitter.messages();
    assert!(messages.len() == 1);
    assert!(messages[0].text == "cannot open file");
    assert!(messages[0].severity == Severity::Error);
}

#[test]
fn readable_file_is_cached_as_loaded() {
    let mut loader = ModuleLoader::new(ErrorEmitter::new());
    let main = mp(&["main"]);
    loader.load(main.clone(), good_file());
    assert!(loader.cached(&main) == Some(&Some(Module {})));
    assert!(loader.take_error_emitter().messages().is_empty());
}

#[test]
fn unattempted_path_has_no_cache_entry() {
    let loader = ModuleLoader::new(ErrorEmitter::new());
    assert!(loader.cached(&mp(&["never"])) == None);
}

#[test]
fn invalid_line_is_reported_with_its_number() {
    let mut loader = ModuleLoader::new(ErrorEmitter::new());
    let main = mp(&["main"]);
    loader.load(main.clone(), FileContents::Lines(vec![SourceLine::Invalid]));
    assert!(loader.cached(&main) == Some(&None));
    let emitter = loader.take_error_emitter();
    let messages = emitter.messages();
    assert!(messages.len() == 1);
    assert!(messages[0].text == "file contained invalid UTF-8 on line 1");
}

#[test]
fn cyclic_inclusion_is_flagged_once_and_terminates() {
    // Modules A and B include each other. The descent A -> B -> A is driven
    // through begin_load/finish_load as an embedding driver would.
    let mut loader = ModuleLoader::new(ErrorEmitter::new());
    let a = mp(&["a"]);
    let b = mp(&["b"]);
    assert!(loader.begin_load(&a));
    // A includes B: descend.
    assert!(loader.begin_load(&b));
    // B includes A: the second entry into the already-loading path is refused.
    assert!(!loader.begin_load(&a));
    loader.finish_load(b.clone(), good_file());
    loader.finish_load(a.clone(), good_file());
    assert!(!loader.is_loading(&a));
    assert!(!loader.is_loading(&b));
    assert!(loader.cached(&a) == Some(&Some(Module {})));
    assert!(loader.cached(&b) == Some(&Some(Module {})));
    let emitter = loader.take_error_emitter();
    let messages = emitter.messages();
    assert!(messages.len() == 1);
    assert!(messages[0].text == "cyclic module inclusion detected");
    assert!(messages[0].severity == Severity::Error);
}

#[test]
fn sibling_failure_does_not_block_other_modules() {
    let mut loader = ModuleLoader::new(ErrorEmitter::new());
    let bad = mp(&["bad"]);
    let good = mp(&["good"]);
    loader.load(bad.clone(), FileContents::Unopenable);
    loader.load(good.clone(), good_file());
    assert!(loader.cached(&bad) == Some(&None));
    assert!(loader.cached(&good) == Some(&Some(Module {})));
}

#[test]
fn reloading_overwrites_the_cache_entry() {
    let mut loader = ModuleLoader::new(ErrorEmitter::new());
    let main = mp(&["main"]);
    loader.load(main.clone(), FileContents::Unopenable);
    assert!(loader.cached(&main) == Some(&None));
    loader.load(main.clone(), good_file());
    assert!(loader.cached(&main) == Some(&Some(Module {})));
}

#[test]
fn take_error_emitter_is_a_one_shot_drain() {
    let mut loader = ModuleLoader::new(ErrorEmitter::new());
    loader.load(mp(&["main"]), FileContents::Unopenable);
    let first = loader.take_error_emitter();
    assert!(first.messages().len() == 1);
    let second = loader.take_error_emitter();
    assert!(second.messages().is_empty());
}
