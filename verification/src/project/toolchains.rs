//! The toolchains that a project can be built with, by the files that mark it.

use vstd::prelude::*;

verus! {

/// What to do for an action of a toolchain: run a shell command, or, where the action does not
/// apply, print how it is done by hand.
#[derive(Clone, Copy)]
pub enum Step {
    Run(&'static str),
    Note(&'static str),
}

/// What to do for an action of a toolchain.
pub enum StepView {
    Run(Seq<char>),
    Note(Seq<char>),
}

impl View for Step {
    type V = StepView;

    open spec fn view(&self) -> StepView {
        match self {
            Step::Run(command) => StepView::Run(command@),
            Step::Note(text) => StepView::Note(text@),
        }
    }
}

impl DeepView for Step {
    type V = StepView;

    open spec fn deep_view(&self) -> StepView {
        self@
    }
}

/// A toolchain and how to drive it. The three build modes are `debug` (fastest to compile),
/// `release` (fastest at runtime) and `tiny` (smallest binary). With `test_needs_build` the tests
/// expect a tree that is already built.
pub struct Toolchain {
    pub name: &'static str,
    pub markers: Vec<&'static str>,
    pub debug: Step,
    pub release: Step,
    pub tiny: Step,
    pub test: Step,
    pub test_needs_build: bool,
    pub run: Step,
    pub update: Step,
}

/// A toolchain and how to drive it.
pub struct ToolchainView {
    pub name: Seq<char>,
    pub markers: Seq<Seq<char>>,
    pub debug: StepView,
    pub release: StepView,
    pub tiny: StepView,
    pub test: StepView,
    pub test_needs_build: bool,
    pub run: StepView,
    pub update: StepView,
}

impl View for Toolchain {
    type V = ToolchainView;

    open spec fn view(&self) -> ToolchainView {
        ToolchainView {
            name: self.name@,
            markers: self.markers.deep_view(),
            debug: self.debug@,
            release: self.release@,
            tiny: self.tiny@,
            test: self.test@,
            test_needs_build: self.test_needs_build,
            run: self.run@,
            update: self.update@,
        }
    }
}

impl DeepView for Toolchain {
    type V = ToolchainView;

    open spec fn deep_view(&self) -> ToolchainView {
        self@
    }
}

/// The toolchains. The first whose marker is there wins, so that the more specific markers come
/// before the general ones.
pub open spec fn toolchain_rows() -> Seq<ToolchainView> {
    seq![
        ToolchainView {
            name: "Rust"@,
            markers: seq!["Cargo.toml"@],
            debug: StepView::Run("cargo build"@),
            release: StepView::Run("RUSTFLAGS=\"-C opt-level=3 -C target-cpu=native -C strip=symbols -C panic=abort -C codegen-units=1\" cargo build --release"@),
            tiny: StepView::Run("RUSTFLAGS=\"-C opt-level=z -C target-cpu=native -C strip=symbols -C panic=abort -C codegen-units=1\" cargo build --release && cargo bloat --release --crates"@),
            test: StepView::Run("cargo test --all-features"@),
            test_needs_build: false,
            run: StepView::Run("cargo run"@),
            update: StepView::Run("cargo update"@),
        },
        ToolchainView {
            name: "Go"@,
            markers: seq!["go.mod"@],
            debug: StepView::Run("go build -gcflags='all=-N -l'"@),
            release: StepView::Run("go build -trimpath -ldflags='-s -w'"@),
            tiny: StepView::Run("go build -trimpath -ldflags='-s -w'"@),
            test: StepView::Run("go test ./..."@),
            test_needs_build: false,
            run: StepView::Run("go run ."@),
            update: StepView::Run("go get -u ./... && go mod tidy"@),
        },
        ToolchainView {
            name: "Node (pnpm)"@,
            markers: seq!["pnpm-lock.yaml"@],
            debug: StepView::Run("pnpm run build"@),
            release: StepView::Run("pnpm run build"@),
            tiny: StepView::Run("pnpm run build"@),
            test: StepView::Run("pnpm test"@),
            test_needs_build: false,
            run: StepView::Run("pnpm start"@),
            update: StepView::Run("pnpm update"@),
        },
        ToolchainView {
            name: "Node (yarn)"@,
            markers: seq!["yarn.lock"@],
            debug: StepView::Run("yarn run build"@),
            release: StepView::Run("yarn run build"@),
            tiny: StepView::Run("yarn run build"@),
            test: StepView::Run("yarn test"@),
            test_needs_build: false,
            run: StepView::Run("yarn start"@),
            update: StepView::Run("yarn upgrade"@),
        },
        ToolchainView {
            name: "Node (bun)"@,
            markers: seq!["bun.lockb"@],
            debug: StepView::Run("bun run build"@),
            release: StepView::Run("bun run build"@),
            tiny: StepView::Run("bun run build"@),
            test: StepView::Run("bun test"@),
            test_needs_build: false,
            run: StepView::Run("bun start"@),
            update: StepView::Run("bun update"@),
        },
        ToolchainView {
            name: "Node (npm)"@,
            markers: seq!["package.json"@],
            debug: StepView::Run("npm run build"@),
            release: StepView::Run("npm run build"@),
            tiny: StepView::Run("npm run build"@),
            test: StepView::Run("npm test"@),
            test_needs_build: false,
            run: StepView::Run("npm start"@),
            update: StepView::Run("npm update"@),
        },
        ToolchainView {
            name: "TypeScript"@,
            markers: seq!["tsconfig.json"@],
            debug: StepView::Run("tsc --sourceMap"@),
            release: StepView::Run("tsc"@),
            tiny: StepView::Run("tsc --removeComments"@),
            test: StepView::Note("standalone TS (no package.json) — add a test runner; inside a Node project pro_test uses the package manager"@),
            test_needs_build: false,
            run: StepView::Note("compile with tsc, then run the output:  node <output>.js"@),
            update: StepView::Note("standalone TS has no manifest — add a package.json to manage dependencies"@),
        },
        ToolchainView {
            name: "Python (uv)"@,
            markers: seq!["uv.lock"@],
            debug: StepView::Note("interpreted — nothing to compile"@),
            release: StepView::Note("interpreted — nothing to compile"@),
            tiny: StepView::Note("interpreted — nothing to compile"@),
            test: StepView::Run("uv run pytest"@),
            test_needs_build: false,
            run: StepView::Note("interpreted — run it with:  uv run python <main-file>"@),
            update: StepView::Run("uv lock --upgrade && uv sync"@),
        },
        ToolchainView {
            name: "Python (poetry)"@,
            markers: seq!["poetry.lock"@],
            debug: StepView::Note("interpreted — nothing to compile"@),
            release: StepView::Note("interpreted — nothing to compile"@),
            tiny: StepView::Note("interpreted — nothing to compile"@),
            test: StepView::Run("poetry run pytest"@),
            test_needs_build: false,
            run: StepView::Note("interpreted — run it with:  poetry run python <main-file>"@),
            update: StepView::Run("poetry update"@),
        },
        ToolchainView {
            name: "Python (pip)"@,
            markers: seq!["requirements.txt"@],
            debug: StepView::Note("interpreted — nothing to compile"@),
            release: StepView::Note("interpreted — nothing to compile"@),
            tiny: StepView::Note("interpreted — nothing to compile"@),
            test: StepView::Run("pytest"@),
            test_needs_build: false,
            run: StepView::Note("interpreted — run it with:  python3 <main-file>"@),
            update: StepView::Run("pip install -U -r requirements.txt"@),
        },
        ToolchainView {
            name: "Python"@,
            markers: seq!["pyproject.toml"@, "setup.py"@],
            debug: StepView::Note("interpreted — nothing to compile"@),
            release: StepView::Note("interpreted — nothing to compile"@),
            tiny: StepView::Note("interpreted — nothing to compile"@),
            test: StepView::Run("pytest"@),
            test_needs_build: false,
            run: StepView::Note("interpreted — run it with:  python3 <main-file>"@),
            update: StepView::Note("no lockfile found — install deps with your tool (pip / poetry / uv)"@),
        },
        ToolchainView {
            name: "Java (Maven)"@,
            markers: seq!["pom.xml"@],
            debug: StepView::Run("mvn compile"@),
            release: StepView::Run("mvn package"@),
            tiny: StepView::Note("no size-optimized build — use the Shade plugin's minimizeJar"@),
            test: StepView::Run("mvn test"@),
            test_needs_build: false,
            run: StepView::Run("mvn exec:java"@),
            update: StepView::Run("mvn versions:use-latest-releases"@),
        },
        ToolchainView {
            name: "Java (Gradle)"@,
            markers: seq!["build.gradle"@, "build.gradle.kts"@],
            debug: StepView::Run("gradle build -x test"@),
            release: StepView::Run("gradle build"@),
            tiny: StepView::Note("no size-optimized build — use a shadow/minimize plugin"@),
            test: StepView::Run("gradle test"@),
            test_needs_build: false,
            run: StepView::Run("gradle run"@),
            update: StepView::Note("no built-in upgrade — use the Versions plugin (com.github.ben-manes.versions) or edit build.gradle"@),
        },
        ToolchainView {
            name: "Ruby"@,
            markers: seq!["Gemfile"@],
            debug: StepView::Note("interpreted — nothing to compile"@),
            release: StepView::Note("interpreted — nothing to compile"@),
            tiny: StepView::Note("interpreted — nothing to compile"@),
            test: StepView::Run("bundle exec rake test"@),
            test_needs_build: false,
            run: StepView::Note("interpreted — run it with:  ruby <main-file>  (or bundle exec ruby ...)"@),
            update: StepView::Run("bundle update"@),
        },
        ToolchainView {
            name: "Zig"@,
            markers: seq!["build.zig"@],
            debug: StepView::Run("zig build -Doptimize=Debug"@),
            release: StepView::Run("zig build -Doptimize=ReleaseFast"@),
            tiny: StepView::Run("zig build -Doptimize=ReleaseSmall"@),
            test: StepView::Run("zig build test"@),
            test_needs_build: false,
            run: StepView::Run("zig build run"@),
            update: StepView::Note("package management is young — add a dependency with:  zig fetch --save <url>"@),
        },
        ToolchainView {
            name: "Perl"@,
            markers: seq!["cpanfile"@, "Makefile.PL"@],
            debug: StepView::Note("interpreted — syntax-check a file with:  perl -c <file>"@),
            release: StepView::Note("interpreted — syntax-check a file with:  perl -c <file>"@),
            tiny: StepView::Note("interpreted — syntax-check a file with:  perl -c <file>"@),
            test: StepView::Run("prove -l t/"@),
            test_needs_build: false,
            run: StepView::Note("interpreted — run it with:  perl <main-file>"@),
            update: StepView::Run("cpanm --installdeps ."@),
        },
        ToolchainView {
            name: "C/C++ (CMake)"@,
            markers: seq!["CMakeLists.txt"@],
            debug: StepView::Run("cmake -B build -DCMAKE_BUILD_TYPE=Debug && cmake --build build"@),
            release: StepView::Run("cmake -B build -DCMAKE_BUILD_TYPE=Release && cmake --build build"@),
            tiny: StepView::Run("cmake -B build -DCMAKE_BUILD_TYPE=MinSizeRel && cmake --build build"@),
            test: StepView::Run("ctest --test-dir build"@),
            test_needs_build: true,
            run: StepView::Note("no single entry point — run your built binary directly, e.g.  ./build/<target>"@),
            update: StepView::Note("C/C++ has no standard package manager"@),
        },
        ToolchainView {
            name: "C/C++ (Make)"@,
            markers: seq!["Makefile"@, "makefile"@],
            debug: StepView::Run("make"@),
            release: StepView::Run("make"@),
            tiny: StepView::Note("Make has no standard size mode — set optimization flags in your Makefile"@),
            test: StepView::Run("make test"@),
            test_needs_build: false,
            run: StepView::Note("no single entry point — run your built binary directly, e.g.  ./<target>"@),
            update: StepView::Note("C/C++ has no standard package manager"@),
        },
    ]
}

/// The toolchains. Another language is one more row.
pub fn toolchains() -> (r: Vec<Toolchain>)
    ensures
        r.deep_view() == toolchain_rows(),
{
    let rows: Vec<Toolchain> = vec![
        Toolchain {
            name: "Rust",
            markers: vec!["Cargo.toml"],
            debug: Step::Run("cargo build"),
            release: Step::Run("RUSTFLAGS=\"-C opt-level=3 -C target-cpu=native -C strip=symbols -C panic=abort -C codegen-units=1\" cargo build --release"),
            tiny: Step::Run("RUSTFLAGS=\"-C opt-level=z -C target-cpu=native -C strip=symbols -C panic=abort -C codegen-units=1\" cargo build --release && cargo bloat --release --crates"),
            test: Step::Run("cargo test --all-features"),
            test_needs_build: false,
            run: Step::Run("cargo run"),
            update: Step::Run("cargo update"),
        },
        Toolchain {
            name: "Go",
            markers: vec!["go.mod"],
            debug: Step::Run("go build -gcflags='all=-N -l'"),
            release: Step::Run("go build -trimpath -ldflags='-s -w'"),
            tiny: Step::Run("go build -trimpath -ldflags='-s -w'"),
            test: Step::Run("go test ./..."),
            test_needs_build: false,
            run: Step::Run("go run ."),
            update: Step::Run("go get -u ./... && go mod tidy"),
        },
        Toolchain {
            name: "Node (pnpm)",
            markers: vec!["pnpm-lock.yaml"],
            debug: Step::Run("pnpm run build"),
            release: Step::Run("pnpm run build"),
            tiny: Step::Run("pnpm run build"),
            test: Step::Run("pnpm test"),
            test_needs_build: false,
            run: Step::Run("pnpm start"),
            update: Step::Run("pnpm update"),
        },
        Toolchain {
            name: "Node (yarn)",
            markers: vec!["yarn.lock"],
            debug: Step::Run("yarn run build"),
            release: Step::Run("yarn run build"),
            tiny: Step::Run("yarn run build"),
            test: Step::Run("yarn test"),
            test_needs_build: false,
            run: Step::Run("yarn start"),
            update: Step::Run("yarn upgrade"),
        },
        Toolchain {
            name: "Node (bun)",
            markers: vec!["bun.lockb"],
            debug: Step::Run("bun run build"),
            release: Step::Run("bun run build"),
            tiny: Step::Run("bun run build"),
            test: Step::Run("bun test"),
            test_needs_build: false,
            run: Step::Run("bun start"),
            update: Step::Run("bun update"),
        },
        Toolchain {
            name: "Node (npm)",
            markers: vec!["package.json"],
            debug: Step::Run("npm run build"),
            release: Step::Run("npm run build"),
            tiny: Step::Run("npm run build"),
            test: Step::Run("npm test"),
            test_needs_build: false,
            run: Step::Run("npm start"),
            update: Step::Run("npm update"),
        },
        Toolchain {
            name: "TypeScript",
            markers: vec!["tsconfig.json"],
            debug: Step::Run("tsc --sourceMap"),
            release: Step::Run("tsc"),
            tiny: Step::Run("tsc --removeComments"),
            test: Step::Note("standalone TS (no package.json) — add a test runner; inside a Node project pro_test uses the package manager"),
            test_needs_build: false,
            run: Step::Note("compile with tsc, then run the output:  node <output>.js"),
            update: Step::Note("standalone TS has no manifest — add a package.json to manage dependencies"),
        },
        Toolchain {
            name: "Python (uv)",
            markers: vec!["uv.lock"],
            debug: Step::Note("interpreted — nothing to compile"),
            release: Step::Note("interpreted — nothing to compile"),
            tiny: Step::Note("interpreted — nothing to compile"),
            test: Step::Run("uv run pytest"),
            test_needs_build: false,
            run: Step::Note("interpreted — run it with:  uv run python <main-file>"),
            update: Step::Run("uv lock --upgrade && uv sync"),
        },
        Toolchain {
            name: "Python (poetry)",
            markers: vec!["poetry.lock"],
            debug: Step::Note("interpreted — nothing to compile"),
            release: Step::Note("interpreted — nothing to compile"),
            tiny: Step::Note("interpreted — nothing to compile"),
            test: Step::Run("poetry run pytest"),
            test_needs_build: false,
            run: Step::Note("interpreted — run it with:  poetry run python <main-file>"),
            update: Step::Run("poetry update"),
        },
        Toolchain {
            name: "Python (pip)",
            markers: vec!["requirements.txt"],
            debug: Step::Note("interpreted — nothing to compile"),
            release: Step::Note("interpreted — nothing to compile"),
            tiny: Step::Note("interpreted — nothing to compile"),
            test: Step::Run("pytest"),
            test_needs_build: false,
            run: Step::Note("interpreted — run it with:  python3 <main-file>"),
            update: Step::Run("pip install -U -r requirements.txt"),
        },
        Toolchain {
            name: "Python",
            markers: vec!["pyproject.toml", "setup.py"],
            debug: Step::Note("interpreted — nothing to compile"),
            release: Step::Note("interpreted — nothing to compile"),
            tiny: Step::Note("interpreted — nothing to compile"),
            test: Step::Run("pytest"),
            test_needs_build: false,
            run: Step::Note("interpreted — run it with:  python3 <main-file>"),
            update: Step::Note("no lockfile found — install deps with your tool (pip / poetry / uv)"),
        },
        Toolchain {
            name: "Java (Maven)",
            markers: vec!["pom.xml"],
            debug: Step::Run("mvn compile"),
            release: Step::Run("mvn package"),
            tiny: Step::Note("no size-optimized build — use the Shade plugin's minimizeJar"),
            test: Step::Run("mvn test"),
            test_needs_build: false,
            run: Step::Run("mvn exec:java"),
            update: Step::Run("mvn versions:use-latest-releases"),
        },
        Toolchain {
            name: "Java (Gradle)",
            markers: vec!["build.gradle", "build.gradle.kts"],
            debug: Step::Run("gradle build -x test"),
            release: Step::Run("gradle build"),
            tiny: Step::Note("no size-optimized build — use a shadow/minimize plugin"),
            test: Step::Run("gradle test"),
            test_needs_build: false,
            run: Step::Run("gradle run"),
            update: Step::Note("no built-in upgrade — use the Versions plugin (com.github.ben-manes.versions) or edit build.gradle"),
        },
        Toolchain {
            name: "Ruby",
            markers: vec!["Gemfile"],
            debug: Step::Note("interpreted — nothing to compile"),
            release: Step::Note("interpreted — nothing to compile"),
            tiny: Step::Note("interpreted — nothing to compile"),
            test: Step::Run("bundle exec rake test"),
            test_needs_build: false,
            run: Step::Note("interpreted — run it with:  ruby <main-file>  (or bundle exec ruby ...)"),
            update: Step::Run("bundle update"),
        },
        Toolchain {
            name: "Zig",
            markers: vec!["build.zig"],
            debug: Step::Run("zig build -Doptimize=Debug"),
            release: Step::Run("zig build -Doptimize=ReleaseFast"),
            tiny: Step::Run("zig build -Doptimize=ReleaseSmall"),
            test: Step::Run("zig build test"),
            test_needs_build: false,
            run: Step::Run("zig build run"),
            update: Step::Note("package management is young — add a dependency with:  zig fetch --save <url>"),
        },
        Toolchain {
            name: "Perl",
            markers: vec!["cpanfile", "Makefile.PL"],
            debug: Step::Note("interpreted — syntax-check a file with:  perl -c <file>"),
            release: Step::Note("interpreted — syntax-check a file with:  perl -c <file>"),
            tiny: Step::Note("interpreted — syntax-check a file with:  perl -c <file>"),
            test: Step::Run("prove -l t/"),
            test_needs_build: false,
            run: Step::Note("interpreted — run it with:  perl <main-file>"),
            update: Step::Run("cpanm --installdeps ."),
        },
        Toolchain {
            name: "C/C++ (CMake)",
            markers: vec!["CMakeLists.txt"],
            debug: Step::Run("cmake -B build -DCMAKE_BUILD_TYPE=Debug && cmake --build build"),
            release: Step::Run("cmake -B build -DCMAKE_BUILD_TYPE=Release && cmake --build build"),
            tiny: Step::Run("cmake -B build -DCMAKE_BUILD_TYPE=MinSizeRel && cmake --build build"),
            test: Step::Run("ctest --test-dir build"),
            test_needs_build: true,
            run: Step::Note("no single entry point — run your built binary directly, e.g.  ./build/<target>"),
            update: Step::Note("C/C++ has no standard package manager"),
        },
        Toolchain {
            name: "C/C++ (Make)",
            markers: vec!["Makefile", "makefile"],
            debug: Step::Run("make"),
            release: Step::Run("make"),
            tiny: Step::Note("Make has no standard size mode — set optimization flags in your Makefile"),
            test: Step::Run("make test"),
            test_needs_build: false,
            run: Step::Note("no single entry point — run your built binary directly, e.g.  ./<target>"),
            update: Step::Note("C/C++ has no standard package manager"),
        },
    ];
    assert(rows@[0]@.markers =~= toolchain_rows()[0].markers);
    assert(rows@[1]@.markers =~= toolchain_rows()[1].markers);
    assert(rows@[2]@.markers =~= toolchain_rows()[2].markers);
    assert(rows@[3]@.markers =~= toolchain_rows()[3].markers);
    assert(rows@[4]@.markers =~= toolchain_rows()[4].markers);
    assert(rows@[5]@.markers =~= toolchain_rows()[5].markers);
    assert(rows@[6]@.markers =~= toolchain_rows()[6].markers);
    assert(rows@[7]@.markers =~= toolchain_rows()[7].markers);
    assert(rows@[8]@.markers =~= toolchain_rows()[8].markers);
    assert(rows@[9]@.markers =~= toolchain_rows()[9].markers);
    assert(rows@[10]@.markers =~= toolchain_rows()[10].markers);
    assert(rows@[11]@.markers =~= toolchain_rows()[11].markers);
    assert(rows@[12]@.markers =~= toolchain_rows()[12].markers);
    assert(rows@[13]@.markers =~= toolchain_rows()[13].markers);
    assert(rows@[14]@.markers =~= toolchain_rows()[14].markers);
    assert(rows@[15]@.markers =~= toolchain_rows()[15].markers);
    assert(rows@[16]@.markers =~= toolchain_rows()[16].markers);
    assert(rows@[17]@.markers =~= toolchain_rows()[17].markers);
    assert(rows.deep_view() =~= toolchain_rows());
    rows
}

} // verus!
