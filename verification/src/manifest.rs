// SPDX-License-Identifier: Apache-2.0
//! What a plugin's manifest says of how to run it.

use vstd::prelude::*;
use vstd::string::*;

use crate::path;
use crate::path::{absolute, join};
use crate::proto::PluginManifest;
use crate::text;
use crate::text::{ends_in, find_char};

verus! {

/// The file of a plugin's directory that holds its manifest.
pub const FILENAME: &'static str = "plugin.json";

/// Where a token leads that is taken for a path.
#[derive(Debug)]
pub enum Place {
    /// It leads there from everywhere.
    Absolute,
    /// It leads there from the plugin's own directory.
    Within(String),
}

/// A plugin's own directory.
#[derive(Debug)]
pub enum PluginDir {
    /// A Unix path.
    Unix(String),
    /// On a platform that has other paths, where each token of `run` leads by its
    /// rules.
    Other(Vec<Place>),
}

impl PluginDir {
    /// There is a place for each of so many tokens.
    pub open spec fn covers(self, tokens: nat) -> bool {
        self matches PluginDir::Other(places) ==> places@.len() == tokens
    }

    /// Where the token at `index` leads; nothing is said of one that is absolute.
    pub open spec fn place(self, index: int, token: Seq<char>) -> Option<Seq<char>> {
        match self {
            PluginDir::Unix(dir) => if path::is_absolute(token) {
                None
            } else {
                Some(path::joined(dir@, token))
            },
            PluginDir::Other(places) => match places@[index] {
                Place::Absolute => None,
                Place::Within(place) => Some(place@),
            },
        }
    }
}

/// What one token of `run` stands for, given where it leads.
pub open spec fn resolved(
    token: Seq<char>,
    python: Seq<char>,
    place: Option<Seq<char>>,
) -> Seq<char> {
    if token == "{python}"@ {
        python
    } else if token.contains('/') || ".py"@.is_suffix_of(token) {
        match place {
            Some(place) => place,
            None => token,
        }
    } else {
        token
    }
}

/// Expand `run` into an argv: `{python}` becomes `python`, and anything that
/// looks like a relative path resolves against the plugin's own directory.
///
/// A bare word is left alone, so an installed manifest must say `./plugin`
/// rather than `plugin` to run the binary beside itself rather than whatever
/// is first on `PATH`.
pub fn resolve_argv(manifest: &PluginManifest, plugin_dir: &PluginDir, python: &str) -> (argv: Vec<
    String,
>)
    requires
        plugin_dir.covers(manifest.run@.len()),
    ensures
        argv@.len() == manifest.run@.len(),
        forall|i: int|
            0 <= i < argv@.len() ==> (#[trigger] argv@[i])@ == resolved(
                manifest.run@[i]@,
                python@,
                plugin_dir.place(i, manifest.run@[i]@),
            ),
{
    let mut argv: Vec<String> = Vec::new();
    let mut i: usize = 0;
    while i < manifest.run.len()
        invariant
            i <= manifest.run@.len(),
            plugin_dir.covers(manifest.run@.len()),
            argv@.len() == i,
            forall|j: int|
                0 <= j < i ==> (#[trigger] argv@[j])@ == resolved(
                    manifest.run@[j]@,
                    python@,
                    plugin_dir.place(j, manifest.run@[j]@),
                ),
        decreases manifest.run@.len() - i,
    {
        let token = manifest.run[i].as_str();
        proof {
            text::lemma_first_index_tells(token@, '/');
        }
        let looks_like_path = find_char(token, '/').is_some() || ends_in(token, ".py");
        let resolved = if token.to_owned() == "{python}".to_owned() {
            python.to_owned()
        } else if !looks_like_path {
            token.to_owned()
        } else {
            match plugin_dir {
                PluginDir::Unix(dir) => if absolute(token) {
                    token.to_owned()
                } else {
                    join(dir.as_str(), token)
                },
                PluginDir::Other(places) => match &places[i] {
                    Place::Absolute => token.to_owned(),
                    Place::Within(place) => place.clone(),
                },
            }
        };
        argv.push(resolved);
        i = i + 1;
    }
    argv
}

/// A bare word, one that neither holds a `/` nor ends in `.py`, is left alone:
/// what it names is looked up on `PATH`.
pub proof fn law_bare_words_are_left_alone(
    token: Seq<char>,
    python: Seq<char>,
    place: Option<Seq<char>>,
)
    requires
        token != "{python}"@,
        !token.contains('/'),
        !".py"@.is_suffix_of(token),
    ensures
        resolved(token, python, place) == token,
{
}

/// An argv that was resolved against an absolute directory does not depend on
/// where a frontend stands: what looks like a Unix path is absolute.
pub proof fn law_resolved_paths_are_absolute(
    token: Seq<char>,
    python: Seq<char>,
    plugin_dir: String,
    index: int,
)
    requires
        token != "{python}"@,
        token.contains('/') || ".py"@.is_suffix_of(token),
        path::is_absolute(plugin_dir@),
    ensures
        path::is_absolute(
            resolved(token, python, PluginDir::Unix(plugin_dir).place(index, token)),
        ),
{
}

/// A relative path of a manifest is the plugin's own, all of it, beneath the
/// plugin's directory: with one separator between the two, which the directory
/// may bring along. So it is for any token that holds a `/`, however deep, or ends
/// in `.py`.
pub proof fn law_relative_paths_stay_whole(
    token: Seq<char>,
    python: Seq<char>,
    plugin_dir: String,
    index: int,
)
    requires
        token != "{python}"@,
        token.contains('/') || (exists|i: int|
            0 <= i <= token.len() && #[trigger] token.skip(i) == seq!['.', 'p', 'y']),
        token[0] != '/',
    ensures
        ({
            let dir = plugin_dir@;
            let argument = resolved(
                token,
                python,
                PluginDir::Unix(plugin_dir).place(index, token),
            );
            &&& dir.len() == 0 || dir[dir.len() - 1] == '/' ==> argument == dir + token
            &&& dir.len() > 0 && dir[dir.len() - 1] != '/' ==> argument == dir + seq!['/'] + token
        }),
{
    reveal_strlit(".py");
    if !token.contains('/') {
        let i = choose|i: int|
            0 <= i <= token.len() && #[trigger] token.skip(i) == seq!['.', 'p', 'y'];
        assert(token.skip(i).len() == 3);
        assert(".py"@ =~= seq!['.', 'p', 'y']);
        assert(token.subrange(token.len() - 3, token.len() as int) =~= token.skip(i));
        assert(".py"@.is_suffix_of(token));
    }
    path::law_joined_paths_keep_both_parts(plugin_dir@, token);
}

/// The placeholder becomes the interpreter, whatever directory it stands in; an
/// absolute path stays as it is.
pub proof fn law_placeholder_and_absolute_paths(
    token: Seq<char>,
    python: Seq<char>,
    plugin_dir: String,
    index: int,
    place: Option<Seq<char>>,
)
    ensures
        resolved("{python}"@, python, place) == python,
        token.len() > 0 && token[0] == '/' ==> resolved(
            token,
            python,
            PluginDir::Unix(plugin_dir).place(index, token),
        ) == token,
{
    reveal_strlit("{python}");
    if token.len() > 0 && token[0] == '/' {
        assert("{python}"@[0] == '{');
        assert(token != "{python}"@);
    }
}

/// Where the platform's own paths decide, a token that looks like a path is what
/// they say: left alone where they call it absolute, and the place they give
/// otherwise.
pub proof fn law_other_platforms_decide(
    token: Seq<char>,
    python: Seq<char>,
    places: Vec<Place>,
    index: int,
)
    requires
        token != "{python}"@,
        token.contains('/') || ".py"@.is_suffix_of(token),
        0 <= index < places@.len(),
    ensures
        places@[index] is Absolute ==> resolved(
            token,
            python,
            PluginDir::Other(places).place(index, token),
        ) == token,
        places@[index] matches Place::Within(place) ==> resolved(
            token,
            python,
            PluginDir::Other(places).place(index, token),
        ) == place@,
{
}

} // verus!
