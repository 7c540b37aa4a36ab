//! The rules that are built in, one for each kind of project.

use crate::detection::Detection;
use crate::detection::DetectionView;
use crate::rule::Action;
use crate::rule::action_views;
use crate::rule::ActionView;
use crate::rule::Rule;
use crate::rule::RuleView;
use vstd::prelude::*;
use vstd::string::*;

verus! {

/// The texts of a list.
pub open spec fn texts(items: Seq<&'static str>) -> Seq<Seq<char>> {
    Seq::new(items.len(), |i: int| items[i]@)
}

/// The rules of a list as plain values.
pub open spec fn rule_views(rules: Seq<Rule>) -> Seq<RuleView> {
    Seq::new(rules.len(), |i: int| rules[i]@)
}

/// "Some path matches one of the first `n` patterns."
pub open spec fn any_of(patterns: Seq<Seq<char>>, n: int) -> DetectionView
    decreases n,
{
    if n <= 1 {
        DetectionView::Pattern(patterns[0])
    } else {
        DetectionView::Any(
            Box::new(any_of(patterns, n - 1)),
            Box::new(DetectionView::Pattern(patterns[n - 1])),
        )
    }
}

/// One removal for each pattern.
pub open spec fn removals(patterns: Seq<Seq<char>>) -> Seq<ActionView> {
    Seq::new(patterns.len(), |i: int| ActionView::Remove(patterns[i]))
}

/// The rule for a kind of project that shows in one of the `markers` and
/// leaves behind what the `leftovers` select.
pub open spec fn plain(
    id: Seq<char>,
    name: Seq<char>,
    markers: Seq<Seq<char>>,
    leftovers: Seq<Seq<char>>,
) -> RuleView {
    RuleView {
        id,
        name,
        detection: any_of(markers, markers.len() as int),
        actions: removals(leftovers),
    }
}

/// Makes the rule for a kind of project that shows in one of the
/// `markers` and leaves behind what the `leftovers` select.
fn plain_rule(
    id: &str,
    name: &str,
    markers: Vec<&'static str>,
    leftovers: Vec<&'static str>,
) -> (rule: Rule)
    requires
        markers.len() >= 1,
    ensures
        rule@ == plain(id@, name@, texts(markers@), texts(leftovers@)),
{
    let ghost patterns = texts(markers@);
    let mut detection = Detection::Pattern(markers[0].to_owned());
    let mut i: usize = 1;
    while i < markers.len()
        invariant
            1 <= i <= markers.len(),
            patterns == texts(markers@),
            detection@ == any_of(patterns, i as int),
        decreases markers.len() - i,
    {
        let next = Detection::Pattern(markers[i].to_owned());
        assert(next@ == DetectionView::Pattern(patterns[i as int]));
        let ghost before = detection;
        detection = Detection::Any(Box::new(detection), Box::new(next));
        assert(detection@ == DetectionView::Any(Box::new(before@), Box::new(next@)));
        i += 1;
    }
    let mut actions: Vec<Action> = Vec::new();
    let mut k: usize = 0;
    assert(action_views(actions@) =~= removals(texts(leftovers@)).take(0));
    while k < leftovers.len()
        invariant
            k <= leftovers.len(),
            action_views(actions@) == removals(texts(leftovers@)).take(k as int),
        decreases leftovers.len() - k,
    {
        let ghost before = actions@;
        actions.push(Action::Remove(leftovers[k].to_owned()));
        proof {
            assert(action_views(actions@) =~= action_views(before).push(
                ActionView::Remove(leftovers@[k as int]@),
            ));
            assert(action_views(actions@) =~= removals(texts(leftovers@)).take(k + 1));
        }
        k += 1;
    }
    proof {
        assert(removals(texts(leftovers@)).take(k as int) =~= removals(texts(leftovers@)));
    }
    Rule { id: id.to_owned(), name: name.to_owned(), detection, actions }
}

/// The rule for Haskell projects built with Cabal, as plain values.
pub open spec fn cabal_view() -> RuleView {
    plain(
        "cabal"@,
        "Cabal (Haskell)"@,
        seq!["cabal.project"@],
        seq!["dist-newstyle"@],
    )
}

/// The rule for Haskell projects built with Cabal.
pub fn cabal() -> (rule: Rule)
    ensures
        rule@ == cabal_view(),
{
    let markers = vec!["cabal.project"];
    let leftovers = vec!["dist-newstyle"];
    assert(texts(markers@) =~= seq!["cabal.project"@]);
    assert(texts(leftovers@) =~= seq!["dist-newstyle"@]);
    plain_rule("cabal", "Cabal (Haskell)", markers, leftovers)
}

/// The rule for Rust projects built with Cargo, as plain values.
pub open spec fn cargo_view() -> RuleView {
    plain(
        "cargo"@,
        "Cargo"@,
        seq!["Cargo.toml"@],
        seq!["**/target"@],
    )
}

/// The rule for Rust projects built with Cargo.
pub fn cargo() -> (rule: Rule)
    ensures
        rule@ == cargo_view(),
{
    let markers = vec!["Cargo.toml"];
    let leftovers = vec!["**/target"];
    assert(texts(markers@) =~= seq!["Cargo.toml"@]);
    assert(texts(leftovers@) =~= seq!["**/target"@]);
    plain_rule("cargo", "Cargo", markers, leftovers)
}

/// The rule for C and C++ projects built with CMake, as plain values.
pub open spec fn cmake_view() -> RuleView {
    plain(
        "cmake"@,
        "CMake"@,
        seq!["CMakeLists.txt"@],
        seq!["build"@, "cmake-build-debug"@, "cmake-build-release"@],
    )
}

/// The rule for C and C++ projects built with CMake.
pub fn cmake() -> (rule: Rule)
    ensures
        rule@ == cmake_view(),
{
    let markers = vec!["CMakeLists.txt"];
    let leftovers = vec!["build", "cmake-build-debug", "cmake-build-release"];
    assert(texts(markers@) =~= seq!["CMakeLists.txt"@]);
    assert(texts(leftovers@) =~= seq!["build"@, "cmake-build-debug"@, "cmake-build-release"@]);
    plain_rule("cmake", "CMake", markers, leftovers)
}

/// The rule for PHP projects managed with Composer, as plain values.
pub open spec fn composer_view() -> RuleView {
    plain(
        "composer"@,
        "Composer (PHP)"@,
        seq!["composer.json"@],
        seq!["vendor"@],
    )
}

/// The rule for PHP projects managed with Composer.
pub fn composer() -> (rule: Rule)
    ensures
        rule@ == composer_view(),
{
    let markers = vec!["composer.json"];
    let leftovers = vec!["vendor"];
    assert(texts(markers@) =~= seq!["composer.json"@]);
    assert(texts(leftovers@) =~= seq!["vendor"@]);
    plain_rule("composer", "Composer (PHP)", markers, leftovers)
}

/// The rule for .NET projects, as plain values.
pub open spec fn dotnet_view() -> RuleView {
    plain(
        "dotnet"@,
        ".NET"@,
        seq!["*.csproj"@],
        seq!["bin"@, "obj"@],
    )
}

/// The rule for .NET projects.
pub fn dotnet() -> (rule: Rule)
    ensures
        rule@ == dotnet_view(),
{
    let markers = vec!["*.csproj"];
    let leftovers = vec!["bin", "obj"];
    assert(texts(markers@) =~= seq!["*.csproj"@]);
    assert(texts(leftovers@) =~= seq!["bin"@, "obj"@]);
    plain_rule("dotnet", ".NET", markers, leftovers)
}

/// The rule for Elixir projects built with Mix, as plain values.
pub open spec fn elixir_view() -> RuleView {
    plain(
        "elixir"@,
        "Elixir"@,
        seq!["mix.exs"@],
        seq!["_build"@, ".elixir-tools"@, ".elixir_ls"@, ".lexical"@],
    )
}

/// The rule for Elixir projects built with Mix.
pub fn elixir() -> (rule: Rule)
    ensures
        rule@ == elixir_view(),
{
    let markers = vec!["mix.exs"];
    let leftovers = vec!["_build", ".elixir-tools", ".elixir_ls", ".lexical"];
    assert(texts(markers@) =~= seq!["mix.exs"@]);
    assert(texts(leftovers@) =~= seq!["_build"@, ".elixir-tools"@, ".elixir_ls"@, ".lexical"@]);
    plain_rule("elixir", "Elixir", markers, leftovers)
}

/// The rule for Godot 4 projects, as plain values.
pub open spec fn godot_view() -> RuleView {
    plain(
        "godot"@,
        "Godot 4"@,
        seq!["project.godot"@],
        seq![".godot"@],
    )
}

/// The rule for Godot 4 projects.
pub fn godot() -> (rule: Rule)
    ensures
        rule@ == godot_view(),
{
    let markers = vec!["project.godot"];
    let leftovers = vec![".godot"];
    assert(texts(markers@) =~= seq!["project.godot"@]);
    assert(texts(leftovers@) =~= seq![".godot"@]);
    plain_rule("godot", "Godot 4", markers, leftovers)
}

/// The rule for projects built with Gradle, as plain values.
pub open spec fn gradle_view() -> RuleView {
    plain(
        "gradle"@,
        "Gradle"@,
        seq!["build.gradle"@, "build.gradle.kts"@],
        seq!["build"@, ".gradle"@],
    )
}

/// The rule for projects built with Gradle.
pub fn gradle() -> (rule: Rule)
    ensures
        rule@ == gradle_view(),
{
    let markers = vec!["build.gradle", "build.gradle.kts"];
    let leftovers = vec!["build", ".gradle"];
    assert(texts(markers@) =~= seq!["build.gradle"@, "build.gradle.kts"@]);
    assert(texts(leftovers@) =~= seq!["build"@, ".gradle"@]);
    plain_rule("gradle", "Gradle", markers, leftovers)
}

/// The rule for Jupyter notebooks, as plain values.
pub open spec fn jupyter_view() -> RuleView {
    plain(
        "jupyter"@,
        "Jupyter"@,
        seq!["*.ipynb"@],
        seq![".ipynb_checkpoints"@],
    )
}

/// The rule for Jupyter notebooks.
pub fn jupyter() -> (rule: Rule)
    ensures
        rule@ == jupyter_view(),
{
    let markers = vec!["*.ipynb"];
    let leftovers = vec![".ipynb_checkpoints"];
    assert(texts(markers@) =~= seq!["*.ipynb"@]);
    assert(texts(leftovers@) =~= seq![".ipynb_checkpoints"@]);
    plain_rule("jupyter", "Jupyter", markers, leftovers)
}

/// The rule for Java projects built with Maven, as plain values.
pub open spec fn maven_view() -> RuleView {
    plain(
        "maven"@,
        "Maven"@,
        seq!["pom.xml"@],
        seq!["target"@],
    )
}

/// The rule for Java projects built with Maven.
pub fn maven() -> (rule: Rule)
    ensures
        rule@ == maven_view(),
{
    let markers = vec!["pom.xml"];
    let leftovers = vec!["target"];
    assert(texts(markers@) =~= seq!["pom.xml"@]);
    assert(texts(leftovers@) =~= seq!["target"@]);
    plain_rule("maven", "Maven", markers, leftovers)
}

/// The rule for Node projects, as plain values.
pub open spec fn node_view() -> RuleView {
    plain(
        "node"@,
        "Node"@,
        seq!["package.json"@],
        seq!["node_modules"@, ".angular"@],
    )
}

/// The rule for Node projects.
pub fn node() -> (rule: Rule)
    ensures
        rule@ == node_view(),
{
    let markers = vec!["package.json"];
    let leftovers = vec!["node_modules", ".angular"];
    assert(texts(markers@) =~= seq!["package.json"@]);
    assert(texts(leftovers@) =~= seq!["node_modules"@, ".angular"@]);
    plain_rule("node", "Node", markers, leftovers)
}

/// The rule for projects managed with Pixi, as plain values.
pub open spec fn pixi_view() -> RuleView {
    plain(
        "pixi"@,
        "Pixi"@,
        seq!["pixi.toml"@],
        seq![".pixi"@],
    )
}

/// The rule for projects managed with Pixi.
pub fn pixi() -> (rule: Rule)
    ensures
        rule@ == pixi_view(),
{
    let markers = vec!["pixi.toml"];
    let leftovers = vec![".pixi"];
    assert(texts(markers@) =~= seq!["pixi.toml"@]);
    assert(texts(leftovers@) =~= seq![".pixi"@]);
    plain_rule("pixi", "Pixi", markers, leftovers)
}

/// The rule for Dart and Flutter projects, as plain values.
pub open spec fn pub__view() -> RuleView {
    plain(
        "pub"@,
        "Pub (Dart/Flutter)"@,
        seq!["pubspec.yaml"@],
        seq![
            "build"@,
            ".dart_tool"@,
            "linux/flutter/ephemeral"@,
            "windows/flutter/ephemeral"@,
        ],
    )
}

/// The rule for Dart and Flutter projects.
pub fn pub_() -> (rule: Rule)
    ensures
        rule@ == pub__view(),
{
    let markers = vec!["pubspec.yaml"];
    let leftovers =
        vec!["build", ".dart_tool", "linux/flutter/ephemeral", "windows/flutter/ephemeral"];
    assert(texts(markers@) =~= seq!["pubspec.yaml"@]);
    assert(texts(leftovers@) =~= seq![
        "build"@,
        ".dart_tool"@,
        "linux/flutter/ephemeral"@,
        "windows/flutter/ephemeral"@,
    ]);
    plain_rule("pub", "Pub (Dart/Flutter)", markers, leftovers)
}

/// The rule for Python projects, as plain values.
pub open spec fn python_view() -> RuleView {
    plain(
        "python"@,
        "Python"@,
        seq!["pyproject.toml"@],
        seq![
            ".venv"@,
            "__pycache__"@,
            ".pytest_cache"@,
            ".mypy_cache"@,
            ".ruff_cache"@,
            ".tox"@,
            ".nox"@,
            "__pypackages__"@,
        ],
    )
}

/// The rule for Python projects.
pub fn python() -> (rule: Rule)
    ensures
        rule@ == python_view(),
{
    let markers = vec!["pyproject.toml"];
    let leftovers = vec![
        ".venv",
        "__pycache__",
        ".pytest_cache",
        ".mypy_cache",
        ".ruff_cache",
        ".tox",
        ".nox",
        "__pypackages__",
    ];
    assert(texts(markers@) =~= seq!["pyproject.toml"@]);
    assert(texts(leftovers@) =~= seq![
        ".venv"@,
        "__pycache__"@,
        ".pytest_cache"@,
        ".mypy_cache"@,
        ".ruff_cache"@,
        ".tox"@,
        ".nox"@,
        "__pypackages__"@,
    ]);
    plain_rule("python", "Python", markers, leftovers)
}

/// The rule for Scala projects built with sbt, as plain values.
pub open spec fn sbt_view() -> RuleView {
    plain(
        "sbt"@,
        "SBT (Scala)"@,
        seq!["build.sbt"@],
        seq!["target"@, "project/target"@],
    )
}

/// The rule for Scala projects built with sbt.
pub fn sbt() -> (rule: Rule)
    ensures
        rule@ == sbt_view(),
{
    let markers = vec!["build.sbt"];
    let leftovers = vec!["target", "project/target"];
    assert(texts(markers@) =~= seq!["build.sbt"@]);
    assert(texts(leftovers@) =~= seq!["target"@, "project/target"@]);
    plain_rule("sbt", "SBT (Scala)", markers, leftovers)
}

/// The rule for Haskell projects built with Stack, as plain values.
pub open spec fn stack_view() -> RuleView {
    plain(
        "stack"@,
        "Stack (Haskell)"@,
        seq!["stack.yaml"@],
        seq![".stack-work"@],
    )
}

/// The rule for Haskell projects built with Stack.
pub fn stack() -> (rule: Rule)
    ensures
        rule@ == stack_view(),
{
    let markers = vec!["stack.yaml"];
    let leftovers = vec![".stack-work"];
    assert(texts(markers@) =~= seq!["stack.yaml"@]);
    assert(texts(leftovers@) =~= seq![".stack-work"@]);
    plain_rule("stack", "Stack (Haskell)", markers, leftovers)
}

/// The rule for Swift packages, as plain values.
pub open spec fn swift_view() -> RuleView {
    plain(
        "swift"@,
        "Swift"@,
        seq!["Package.swift"@],
        seq![".build"@, ".swiftpm"@],
    )
}

/// The rule for Swift packages.
pub fn swift() -> (rule: Rule)
    ensures
        rule@ == swift_view(),
{
    let markers = vec!["Package.swift"];
    let leftovers = vec![".build", ".swiftpm"];
    assert(texts(markers@) =~= seq!["Package.swift"@]);
    assert(texts(leftovers@) =~= seq![".build"@, ".swiftpm"@]);
    plain_rule("swift", "Swift", markers, leftovers)
}

/// The rule for Turborepo workspaces, as plain values.
pub open spec fn turborepo_view() -> RuleView {
    plain(
        "turborepo"@,
        "Turborepo"@,
        seq!["turbo.json"@],
        seq![".turbo"@],
    )
}

/// The rule for Turborepo workspaces.
pub fn turborepo() -> (rule: Rule)
    ensures
        rule@ == turborepo_view(),
{
    let markers = vec!["turbo.json"];
    let leftovers = vec![".turbo"];
    assert(texts(markers@) =~= seq!["turbo.json"@]);
    assert(texts(leftovers@) =~= seq![".turbo"@]);
    plain_rule("turborepo", "Turborepo", markers, leftovers)
}

/// The rule for Unity projects, as plain values.
pub open spec fn unity_view() -> RuleView {
    plain(
        "unity"@,
        "Unity"@,
        seq!["Assembly-CSharp.csproj"@],
        seq![
            "Library"@,
            "Temp"@,
            "Obj"@,
            "Logs"@,
            "MemoryCaptures"@,
            "Build"@,
            "Builds"@,
        ],
    )
}

/// The rule for Unity projects.
pub fn unity() -> (rule: Rule)
    ensures
        rule@ == unity_view(),
{
    let markers = vec!["Assembly-CSharp.csproj"];
    let leftovers = vec!["Library", "Temp", "Obj", "Logs", "MemoryCaptures", "Build", "Builds"];
    assert(texts(markers@) =~= seq!["Assembly-CSharp.csproj"@]);
    assert(texts(leftovers@) =~= seq![
        "Library"@,
        "Temp"@,
        "Obj"@,
        "Logs"@,
        "MemoryCaptures"@,
        "Build"@,
        "Builds"@,
    ]);
    plain_rule("unity", "Unity", markers, leftovers)
}

/// The rule for Unreal Engine projects, as plain values.
pub open spec fn unreal_view() -> RuleView {
    plain(
        "unreal"@,
        "Unreal Engine"@,
        seq!["*.uproject"@],
        seq!["Binaries"@, "Build"@, "Saved"@, "DerivedDataCache"@, "Intermediate"@],
    )
}

/// The rule for Unreal Engine projects.
pub fn unreal() -> (rule: Rule)
    ensures
        rule@ == unreal_view(),
{
    let markers = vec!["*.uproject"];
    let leftovers = vec!["Binaries", "Build", "Saved", "DerivedDataCache", "Intermediate"];
    assert(texts(markers@) =~= seq!["*.uproject"@]);
    assert(texts(leftovers@) =~= seq![
        "Binaries"@,
        "Build"@,
        "Saved"@,
        "DerivedDataCache"@,
        "Intermediate"@,
    ]);
    plain_rule("unreal", "Unreal Engine", markers, leftovers)
}

/// The rule for Zig projects, as plain values.
pub open spec fn zig_view() -> RuleView {
    plain(
        "zig"@,
        "Zig"@,
        seq!["build.zig"@],
        seq!["zig-cache"@, ".zig-cache"@, "zig-out"@],
    )
}

/// The rule for Zig projects.
pub fn zig() -> (rule: Rule)
    ensures
        rule@ == zig_view(),
{
    let markers = vec!["build.zig"];
    let leftovers = vec!["zig-cache", ".zig-cache", "zig-out"];
    assert(texts(markers@) =~= seq!["build.zig"@]);
    assert(texts(leftovers@) =~= seq!["zig-cache"@, ".zig-cache"@, "zig-out"@]);
    plain_rule("zig", "Zig", markers, leftovers)
}

/// The built-in rules as plain values, in the order in which they are
/// tried.
pub open spec fn builtin_rules() -> Seq<RuleView> {
    seq![
        cabal_view(),
        cargo_view(),
        cmake_view(),
        composer_view(),
        dotnet_view(),
        elixir_view(),
        godot_view(),
        gradle_view(),
        jupyter_view(),
        maven_view(),
        node_view(),
        pixi_view(),
        pub__view(),
        python_view(),
        sbt_view(),
        stack_view(),
        swift_view(),
        turborepo_view(),
        unity_view(),
        unreal_view(),
        zig_view(),
    ]
}

/// The built-in rules, in the order in which they are tried.
pub fn builtin() -> (rules: Vec<Rule>)
    ensures
        rule_views(rules@) == builtin_rules(),
{
    let mut rules: Vec<Rule> = Vec::new();
    rules.push(cabal());
    rules.push(cargo());
    rules.push(cmake());
    rules.push(composer());
    rules.push(dotnet());
    rules.push(elixir());
    rules.push(godot());
    rules.push(gradle());
    rules.push(jupyter());
    rules.push(maven());
    rules.push(node());
    rules.push(pixi());
    rules.push(pub_());
    rules.push(python());
    rules.push(sbt());
    rules.push(stack());
    rules.push(swift());
    rules.push(turborepo());
    rules.push(unity());
    rules.push(unreal());
    rules.push(zig());
    assert(rule_views(rules@) =~= builtin_rules());
    rules
}

/// The ids of the built-in rules, in their order.
pub open spec fn builtin_ids() -> Seq<Seq<char>> {
    Seq::new(builtin_rules().len(), |i: int| builtin_rules()[i].id)
}

/// No two built-in rules have the same id.
pub proof fn lemma_builtin_distinct()
    ensures
        forall|i: int, j: int|
            0 <= i < j < builtin_rules().len() ==> builtin_rules()[i].id != builtin_rules()[j].id,
{
    reveal_strlit("cabal");
    reveal_strlit("cargo");
    reveal_strlit("cmake");
    reveal_strlit("composer");
    reveal_strlit("dotnet");
    reveal_strlit("elixir");
    reveal_strlit("godot");
    reveal_strlit("gradle");
    reveal_strlit("jupyter");
    reveal_strlit("maven");
    reveal_strlit("node");
    reveal_strlit("pixi");
    reveal_strlit("pub");
    reveal_strlit("python");
    reveal_strlit("sbt");
    reveal_strlit("stack");
    reveal_strlit("swift");
    reveal_strlit("turborepo");
    reveal_strlit("unity");
    reveal_strlit("unreal");
    reveal_strlit("zig");
    let ids = builtin_ids();
    assert(ids.len() == 21);
    assert forall|i: int, j: int| 0 <= i < j < 21 implies ids[i] != ids[j] by {
        let a = ids[i];
        let b = ids[j];
        if a.len() == b.len() {
            assert(a[0] != b[0] || a[1] != b[1] || a[2] != b[2]);
        }
    }
    assert forall|i: int, j: int| 0 <= i < j < builtin_rules().len() implies builtin_rules()[i].id
        != builtin_rules()[j].id by {
        assert(ids[i] != ids[j]);
    }
}

} // verus!
