// SPDX-License-Identifier: Apache-2.0
use openmso::manifest::{resolve_argv, Place, PluginDir, FILENAME};
use openmso::proto::PluginManifest;

fn resolve(run: &[&str], dir: &str) -> Vec<String> {
    let manifest = PluginManifest {
        run: run.iter().map(|t| t.to_string()).collect(),
        ..Default::default()
    };
    resolve_argv(&manifest, &PluginDir::Unix(dir.to_string()), "/usr/bin/python3.13")
}

#[test]
fn argv_resolves_against_the_plugin_directory() {
    let dir = PluginDir::Unix("/plugins/demo".to_string());
    let manifest = PluginManifest {
        run: ["{python}", "plugin.py", "--verbose", "/usr/bin/thing", "demo"]
            .map(String::from)
            .to_vec(),
        ..Default::default()
    };
    assert_eq!(
        resolve_argv(&manifest, &dir, "/usr/bin/python3.13"),
        ["/usr/bin/python3.13", "/plugins/demo/plugin.py", "--verbose",
         "/usr/bin/thing", "demo"]
    );
}

#[test]
fn a_relative_path_is_the_plugins_own() {
    assert_eq!(resolve(&["./demo"], "/plugins/demo"), ["/plugins/demo/./demo"]);
    assert_eq!(resolve(&["bin/demo"], "/plugins/demo/"), ["/plugins/demo/bin/demo"]);
    assert_eq!(resolve(&["a.py"], ""), ["a.py"]);
    assert_eq!(resolve(&[".py"], "d"), ["d/.py"]);
}

#[test]
fn a_bare_word_is_left_alone() {
    assert_eq!(resolve(&["demo", "demo.pyc", ""], "/plugins/demo"), ["demo", "demo.pyc", ""]);
    assert_eq!(resolve(&["{python}x"], "/p"), ["{python}x"]);
    assert_eq!(resolve(&[], "/p"), Vec::<String>::new());
    assert_eq!(FILENAME, "plugin.json");
}

#[test]
fn other_platforms_say_where_a_token_leads() {
    let run = ["{python}", r"C:\x\y.py", "plugin.py", "demo", r"bin\demo"];
    let manifest = PluginManifest {
        run: run.map(String::from).to_vec(),
        ..Default::default()
    };
    let within = |token: &str| Place::Within(format!(r"C:\plugins\demo\{token}"));
    let places = vec![
        within("{python}"),
        Place::Absolute,
        within("plugin.py"),
        within("demo"),
        within(r"bin\demo"),
    ];
    assert_eq!(
        resolve_argv(&manifest, &PluginDir::Other(places), "py.exe"),
        ["py.exe", r"C:\x\y.py", r"C:\plugins\demo\plugin.py", "demo", r"bin\demo"]
    );
}
