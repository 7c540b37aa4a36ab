use swab::age::Timestamp;
use swab::config::Config;
use swab::context::Context;
use swab::context::WalkEvent;
use swab::metrics::size_plan;
use swab::metrics::walked_size;
use swab::metrics::FileKind;
use swab::metrics::Metadata;
use swab::metrics::SizePlan;
use swab::metrics::Sized;
use swab::prune::PathKind;
use swab::report::Measured;
use swab::report::Report;
use swab::task::Task;

fn found(path: &str, depth: usize, is_dir: bool) -> WalkEvent {
    WalkEvent::Found { path: path.to_string(), depth, is_dir }
}

/// The listing of a directory that holds the given files.
fn listing(root: &str, files: &[(&str, u64)]) -> Context {
    let mut events = vec![found("", 0, true)];
    for (file, _) in files {
        let parts: Vec<&str> = file.split('/').collect();
        for end in 1..parts.len() {
            events.push(found(&parts[..end].join("/"), end, true));
        }
        events.push(found(file, parts.len(), false));
    }
    Context::new(root.to_string(), false, &events).unwrap()
}

fn beneath(file: &str, dir: &str) -> bool {
    file.starts_with(&format!("{dir}/"))
}

/// What the file system says of a path of the tree.
fn stat(files: &[(&str, u64)], path: &str) -> Option<Metadata> {
    if let Some((_, len)) = files.iter().find(|(file, _)| *file == path) {
        return Some(Metadata { kind: FileKind::File, len: *len });
    }
    if files.iter().any(|(file, _)| beneath(file, path)) {
        return Some(Metadata { kind: FileKind::Directory, len: 4096 });
    }
    None
}

fn kind(files: &[(&str, u64)], path: &str) -> PathKind {
    match stat(files, path) {
        None => PathKind::Missing,
        Some(Metadata { kind: FileKind::Directory, .. }) => PathKind::Directory,
        Some(_) => PathKind::File,
    }
}

/// The size of a path of the tree, as the library measures it.
fn size(files: &[(&str, u64)], path: &str) -> u64 {
    match size_plan(stat(files, path).unwrap(), false) {
        SizePlan::Known(bytes) => bytes,
        SizePlan::Walk => {
            let mut steps = vec![Sized::Entry(Metadata { kind: FileKind::Directory, len: 4096 })];
            for (file, len) in files {
                if beneath(file, path) {
                    steps.push(Sized::Entry(Metadata { kind: FileKind::Directory, len: 4096 }));
                    steps.push(Sized::Entry(Metadata { kind: FileKind::File, len: *len }));
                }
            }
            walked_size(&steps, false).unwrap()
        }
    }
}

/// The reports of the built-in rules for a directory that holds the given
/// files, without those that have nothing to do.
fn reports(root: &str, files: &[(&str, u64)]) -> Vec<Report> {
    let context = listing(root, files);
    let mut reports = Vec::new();
    for rule in Config::default_rules() {
        if !rule.detection.matches(&context) {
            continue;
        }
        let candidates = context.candidates(&rule);
        let kinds: Vec<PathKind> = candidates.iter().map(|path| kind(files, path)).collect();
        let measured = context
            .matches(&rule, &kinds)
            .into_iter()
            .map(|path| Measured { size: size(files, &path), path })
            .collect();
        let report = context.report(&rule, measured, Timestamp { seconds: 7, nanos: 0 });
        if !report.tasks.is_empty() {
            reports.push(report);
        }
    }
    reports
}

fn removal(path: &str, size: u64) -> Task {
    Task::Remove { path: path.to_string(), size }
}

/// Exactly one rule has something to do: the named one, with these tasks.
fn expect(files: &[(&str, u64)], rule_name: &str, tasks: Vec<Task>, bytes: u64) {
    let reports = reports("/tmp/project", files);
    assert_eq!(reports.len(), 1);
    assert_eq!(reports[0].root, "/tmp/project");
    assert_eq!(reports[0].rule_name, rule_name);
    assert_eq!(reports[0].modified, Timestamp { seconds: 7, nanos: 0 });
    assert_eq!(reports[0].tasks, tasks);
    assert_eq!(reports[0].bytes(), Some(bytes));
}

#[test]
fn cargo_removes_target_directory() {
    let files = [
        ("Cargo.toml", 0),
        ("target/debug/app", 1000),
        ("target/release/app", 500),
    ];
    let tasks = vec![
        removal("target", 1500),
    ];
    expect(&files, "Cargo", tasks, 1500);
}

#[test]
fn cargo_removes_nested_target_directories() {
    let files = [
        ("Cargo.toml", 0),
        ("target/debug/main", 1000),
        ("crates/foo/Cargo.toml", 0),
        ("crates/foo/target/debug/foo", 500),
        ("crates/bar/Cargo.toml", 0),
        ("crates/bar/target/debug/bar", 500),
    ];
    let tasks = vec![
        removal("crates/bar/target", 500),
        removal("crates/foo/target", 500),
        removal("target", 1000),
    ];
    expect(&files, "Cargo", tasks, 2000);
}

#[test]
fn dotnet_removes_bin_and_obj() {
    let files = [
        ("App.csproj", 0),
        ("bin/Debug/net8.0/App.dll", 1000),
        ("obj/Debug/net8.0/App.dll", 500),
    ];
    let tasks = vec![
        removal("bin", 1000),
        removal("obj", 500),
    ];
    expect(&files, ".NET", tasks, 1500);
}

#[test]
fn elixir_removes_build_directories() {
    let files = [
        ("mix.exs", 0),
        ("_build/dev/lib/app/ebin/app.beam", 1000),
        (".elixir_ls/build/dev/lib/app.ex", 500),
    ];
    let tasks = vec![
        removal(".elixir_ls", 500),
        removal("_build", 1000),
    ];
    expect(&files, "Elixir", tasks, 1500);
}

#[test]
fn gradle_removes_build_directories() {
    let files = [
        ("build.gradle", 0),
        ("build/classes/main/App.class", 1000),
        (".gradle/8.0/checksums/checksums.lock", 500),
    ];
    let tasks = vec![
        removal(".gradle", 500),
        removal("build", 1000),
    ];
    expect(&files, "Gradle", tasks, 1500);
}

#[test]
fn gradle_kotlin_dsl() {
    let files = [
        ("build.gradle.kts", 0),
        ("build/classes/main/App.class", 1000),
    ];
    let tasks = vec![
        removal("build", 1000),
    ];
    expect(&files, "Gradle", tasks, 1000);
}

#[test]
fn maven_removes_target() {
    let files = [
        ("pom.xml", 0),
        ("target/classes/com/example/App.class", 1000),
    ];
    let tasks = vec![
        removal("target", 1000),
    ];
    expect(&files, "Maven", tasks, 1000);
}

#[test]
fn node_removes_node_modules() {
    let files = [
        ("package.json", 0),
        ("node_modules/lodash/index.js", 1000),
        ("node_modules/express/index.js", 500),
    ];
    let tasks = vec![
        removal("node_modules", 1500),
    ];
    expect(&files, "Node", tasks, 1500);
}

#[test]
fn node_removes_angular_cache() {
    let files = [
        ("package.json", 0),
        (".angular/cache/data.json", 1000),
    ];
    let tasks = vec![
        removal(".angular", 1000),
    ];
    expect(&files, "Node", tasks, 1000);
}

#[test]
fn python_removes_cache_directories() {
    let files = [
        ("pyproject.toml", 0),
        (".venv/lib/python3.12/site-packages/pip.py", 1000),
        ("__pycache__/main.cpython-312.pyc", 500),
        (".pytest_cache/v/cache/data", 200),
        (".mypy_cache/3.12/main.meta.json", 100),
        (".ruff_cache/0.1.0/data", 100),
    ];
    let tasks = vec![
        removal(".mypy_cache", 100),
        removal(".pytest_cache", 200),
        removal(".ruff_cache", 100),
        removal(".venv", 1000),
        removal("__pycache__", 500),
    ];
    expect(&files, "Python", tasks, 1900);
}

#[test]
fn swift_removes_build_directories() {
    let files = [
        ("Package.swift", 0),
        (".build/debug/App", 1000),
        (".swiftpm/xcode/xcshareddata/data", 500),
    ];
    let tasks = vec![
        removal(".build", 1000),
        removal(".swiftpm", 500),
    ];
    expect(&files, "Swift", tasks, 1500);
}

#[test]
fn zig_removes_cache_directories() {
    let files = [
        ("build.zig", 0),
        ("zig-cache/o/data", 1000),
        ("zig-out/bin/app", 500),
    ];
    let tasks = vec![
        removal("zig-cache", 1000),
        removal("zig-out", 500),
    ];
    expect(&files, "Zig", tasks, 1500);
}

#[test]
fn cabal_removes_dist_newstyle() {
    let files = [
        ("cabal.project", 0),
        ("dist-newstyle/build/x86_64-linux/ghc-9.4.7/app-0.1.0.0/build/app/app", 1000),
    ];
    let tasks = vec![
        removal("dist-newstyle", 1000),
    ];
    expect(&files, "Cabal (Haskell)", tasks, 1000);
}

#[test]
fn cmake_removes_build_directories() {
    let files = [
        ("CMakeLists.txt", 0),
        ("build/CMakeCache.txt", 1000),
        ("cmake-build-debug/app", 500),
        ("cmake-build-release/app", 500),
    ];
    let tasks = vec![
        removal("build", 1000),
        removal("cmake-build-debug", 500),
        removal("cmake-build-release", 500),
    ];
    expect(&files, "CMake", tasks, 2000);
}

#[test]
fn composer_removes_vendor() {
    let files = [
        ("composer.json", 0),
        ("vendor/autoload.php", 1000),
        ("vendor/composer/installed.json", 500),
    ];
    let tasks = vec![
        removal("vendor", 1500),
    ];
    expect(&files, "Composer (PHP)", tasks, 1500);
}

#[test]
fn godot_removes_godot_directory() {
    let files = [
        ("project.godot", 0),
        (".godot/imported/icon.png", 1000),
    ];
    let tasks = vec![
        removal(".godot", 1000),
    ];
    expect(&files, "Godot 4", tasks, 1000);
}

#[test]
fn jupyter_removes_checkpoints() {
    let files = [
        ("notebook.ipynb", 0),
        (".ipynb_checkpoints/notebook-checkpoint.ipynb", 1000),
    ];
    let tasks = vec![
        removal(".ipynb_checkpoints", 1000),
    ];
    expect(&files, "Jupyter", tasks, 1000);
}

#[test]
fn pixi_removes_pixi_directory() {
    let files = [
        ("pixi.toml", 0),
        (".pixi/envs/default/bin/python", 1000),
    ];
    let tasks = vec![
        removal(".pixi", 1000),
    ];
    expect(&files, "Pixi", tasks, 1000);
}

#[test]
fn pub_removes_build_directories() {
    let files = [
        ("pubspec.yaml", 0),
        ("build/app.dill", 1000),
        (".dart_tool/package_config.json", 500),
        ("linux/flutter/ephemeral/libflutter.so", 300),
        ("windows/flutter/ephemeral/flutter.dll", 200),
    ];
    let tasks = vec![
        removal(".dart_tool", 500),
        removal("build", 1000),
        removal("linux/flutter/ephemeral", 300),
        removal("windows/flutter/ephemeral", 200),
    ];
    expect(&files, "Pub (Dart/Flutter)", tasks, 2000);
}

#[test]
fn sbt_removes_target_directories() {
    let files = [
        ("build.sbt", 0),
        ("target/scala-3.3.1/classes/Main.class", 1000),
        ("project/target/scala-2.12/sbt-1.0/classes/Build.class", 500),
    ];
    let tasks = vec![
        removal("project/target", 500),
        removal("target", 1000),
    ];
    expect(&files, "SBT (Scala)", tasks, 1500);
}

#[test]
fn stack_removes_stack_work() {
    let files = [
        ("stack.yaml", 0),
        (".stack-work/install/x86_64-linux/lts-21.0/9.4.7/bin/app", 1000),
    ];
    let tasks = vec![
        removal(".stack-work", 1000),
    ];
    expect(&files, "Stack (Haskell)", tasks, 1000);
}

#[test]
fn turborepo_removes_turbo_directory() {
    let files = [
        ("turbo.json", 0),
        (".turbo/cache/data", 1000),
    ];
    let tasks = vec![
        removal(".turbo", 1000),
    ];
    expect(&files, "Turborepo", tasks, 1000);
}

#[test]
fn unity_removes_build_directories() {
    let files = [
        ("Assembly-CSharp.csproj", 0),
        ("Library/ScriptAssemblies/Assembly-CSharp.dll", 1000),
        ("Temp/UnityLockfile", 500),
        ("Obj/Debug/Assembly-CSharp.dll", 300),
        ("Logs/AssetImportWorker0.log", 200),
        ("MemoryCaptures/capture.raw", 100),
        ("Build/game.exe", 100),
        ("Builds/game.exe", 100),
    ];
    let tasks = vec![
        removal("Build", 100),
        removal("Builds", 100),
        removal("Library", 1000),
        removal("Logs", 200),
        removal("MemoryCaptures", 100),
        removal("Obj", 300),
        removal("Temp", 500),
    ];
    expect(&files, "Unity", tasks, 2300);
}

#[test]
fn unreal_removes_build_directories() {
    let files = [
        ("MyGame.uproject", 0),
        ("Binaries/Win64/MyGame.exe", 1000),
        ("Build/WindowsNoEditor/MyGame.pak", 500),
        ("Saved/Logs/MyGame.log", 300),
        ("DerivedDataCache/DDC.bin", 200),
        ("Intermediate/Build/Win64/MyGame.obj", 100),
    ];
    let tasks = vec![
        removal("Binaries", 1000),
        removal("Build", 500),
        removal("DerivedDataCache", 200),
        removal("Intermediate", 100),
        removal("Saved", 300),
    ];
    expect(&files, "Unreal Engine", tasks, 2100);
}

#[test]
fn nested_projects_are_reported_each_on_its_own() {
    let workspace = [
        ("Cargo.toml", 0),
        ("target/debug/main", 1000),
        ("crates/foo/Cargo.toml", 0),
        ("crates/foo/target/debug/foo", 500),
        ("crates/bar/Cargo.toml", 0),
        ("crates/bar/target/debug/bar", 300),
    ];
    let foo = [("Cargo.toml", 0), ("target/debug/foo", 500)];
    let bar = [("Cargo.toml", 0), ("target/debug/bar", 300)];

    let of_foo = reports("/w/crates/foo", &foo);
    assert_eq!(of_foo.len(), 1);
    assert_eq!(of_foo[0].root, "/w/crates/foo");
    assert_eq!(of_foo[0].rule_name, "Cargo");
    assert_eq!(of_foo[0].tasks, vec![removal("target", 500)]);

    let of_bar = reports("/w/crates/bar", &bar);
    assert_eq!(of_bar.len(), 1);
    assert_eq!(of_bar[0].root, "/w/crates/bar");
    assert_eq!(of_bar[0].tasks, vec![removal("target", 300)]);

    let of_workspace = reports("/w", &workspace);
    assert_eq!(of_workspace.len(), 1);
    assert_eq!(of_workspace[0].root, "/w");
    assert_eq!(
        of_workspace[0].tasks,
        vec![
            removal("crates/bar/target", 300),
            removal("crates/foo/target", 500),
            removal("target", 1000),
        ]
    );
}

#[test]
fn directory_without_a_marker_is_left_alone() {
    let files = [("README.md", 10), ("target/debug/app", 1000), ("node_modules/x/index.js", 5)];
    assert!(reports("/tmp/project", &files).is_empty());
}

#[test]
fn built_in_rules_come_in_their_order_with_distinct_ids() {
    let rules = Config::default_rules();
    let ids: Vec<&str> = rules.iter().map(|rule| rule.id.as_str()).collect();
    assert_eq!(
        ids,
        vec![
            "cabal", "cargo", "cmake", "composer", "dotnet", "elixir", "godot", "gradle",
            "jupyter", "maven", "node", "pixi", "pub", "python", "sbt", "stack", "swift",
            "turborepo", "unity", "unreal", "zig",
        ]
    );
    for rule in &rules {
        assert!(!rule.actions.is_empty());
        assert!(!rule.name.is_empty());
    }
}
