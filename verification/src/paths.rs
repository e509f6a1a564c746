//! Paths as the operating system hands them over: byte strings, which need not
//! be text.
use vstd::prelude::*;
use vstd::slice::slice_subrange;

use crate::text;

verus! {

/// The error that there is no place for the configuration.
pub const HOME_MISSING: &'static str = "HOME is not set, so the default minivna config path cannot be determined";

/// The bytes of a text.
pub open spec fn bytes_of(name: Seq<char>) -> Seq<u8> {
    vstd::utf8::encode_utf8(name)
}

pub open spec fn absolute(path: Seq<u8>) -> bool {
    path.len() > 0 && path[0] == 47
}

/// `path` as seen from `directory`.
pub open spec fn joined(directory: Seq<u8>, path: Seq<u8>) -> Seq<u8> {
    if absolute(path) {
        path
    } else if directory.len() == 0 || directory.last() == 47 {
        directory + path
    } else {
        directory + seq![47u8] + path
    }
}

pub open spec fn begins_with(bytes: Seq<u8>, prefix: Seq<u8>) -> bool {
    prefix.len() <= bytes.len() && bytes.take(prefix.len() as int) == prefix
}

/// A value of the environment that is set and not empty.
pub open spec fn set_value(value: Option<Vec<u8>>) -> Option<Seq<u8>> {
    match value {
        Some(value) => if value@.len() > 0 {
            Some(value@)
        } else {
            None
        },
        None => None,
    }
}

/// The directory that holds the configuration of all programs: the one that
/// is set, or the customary one in the home directory.
pub open spec fn config_home(xdg: Option<Vec<u8>>, home: Option<Vec<u8>>) -> Option<Seq<u8>> {
    match set_value(xdg) {
        Some(directory) => Some(directory),
        None => match set_value(home) {
            Some(directory) => Some(joined(directory, bytes_of(".config"@))),
            None => None,
        },
    }
}

/// The path of the configuration file.
pub open spec fn config_file(xdg: Option<Vec<u8>>, home: Option<Vec<u8>>) -> Option<Seq<u8>> {
    match config_home(xdg, home) {
        Some(directory) => Some(
            joined(joined(directory, bytes_of("minivna"@)), bytes_of("minivna.toml"@)),
        ),
        None => None,
    }
}

/// The path that the arguments from `i` on name, or else `found`. A later path
/// wins. An argument that is not text names none by itself.
pub open spec fn named_path(arguments: Seq<Vec<u8>>, i: int, found: Option<Seq<u8>>) -> Option<
    Seq<u8>,
>
    decreases arguments.len() + 1 - i,
{
    if i >= arguments.len() {
        found
    } else if arguments[i]@ == bytes_of("--config"@) {
        named_path(
            arguments,
            i + 2,
            if i + 1 < arguments.len() {
                Some(arguments[i + 1]@)
            } else {
                None
            },
        )
    } else if vstd::utf8::valid_utf8(arguments[i]@) && begins_with(
        arguments[i]@,
        bytes_of("--config="@),
    ) {
        named_path(
            arguments,
            i + 1,
            Some(arguments[i]@.skip(bytes_of("--config="@).len() as int)),
        )
    } else {
        named_path(arguments, i + 1, found)
    }
}

/// One of the arguments from `i` on asks for JSON.
pub open spec fn asks_for_json(arguments: Seq<Vec<u8>>, i: int) -> bool
    decreases arguments.len() - i,
{
    i < arguments.len() && (arguments[i]@ == bytes_of("--json"@) || asks_for_json(
        arguments,
        i + 1,
    ))
}

fn same(left: &[u8], right: &[u8]) -> (answer: bool)
    ensures
        answer == (left@ == right@),
{
    if left.len() != right.len() {
        return false;
    }
    let mut i: usize = 0;
    while i < left.len()
        invariant
            i <= left.len(),
            left.len() == right.len(),
            forall|k: int| 0 <= k < i ==> left@[k] == right@[k],
        decreases left.len() - i,
    {
        if left[i] != right[i] {
            return false;
        }
        i = i + 1;
    }
    assert(left@ =~= right@);
    true
}

fn copy_of(bytes: &[u8]) -> (copy: Vec<u8>)
    ensures
        copy@ == bytes@,
{
    let mut copy: Vec<u8> = Vec::new();
    copy.extend_from_slice(bytes);
    assert(copy@ =~= bytes@);
    copy
}

pub fn is_absolute(path: &[u8]) -> (answer: bool)
    ensures
        answer == absolute(path@),
{
    path.len() > 0 && path[0] == 47
}

pub fn join(directory: &[u8], path: &[u8]) -> (whole: Vec<u8>)
    ensures
        whole@ == joined(directory@, path@),
{
    let mut whole: Vec<u8> = Vec::new();
    if !is_absolute(path) {
        whole.extend_from_slice(directory);
        if directory.len() > 0 && directory[directory.len() - 1] != 47 {
            whole.push(47);
        }
    }
    whole.extend_from_slice(path);
    assert(whole@ =~= joined(directory@, path@));
    whole
}

/// The path of the configuration file, from the environment.
pub fn config_path_from(xdg_config_home: &Option<Vec<u8>>, home: &Option<Vec<u8>>) -> (path: Option<
    Vec<u8>,
>)
    ensures
        match (path, config_file(*xdg_config_home, *home)) {
            (Some(path), Some(expected)) => path@ == expected,
            (None, None) => true,
            _ => false,
        },
{
    let base: Vec<u8> = match xdg_config_home {
        Some(directory) if directory.len() > 0 => copy_of(directory.as_slice()),
        _ => match home {
            Some(directory) if directory.len() > 0 => join(
                directory.as_slice(),
                ".config".as_bytes(),
            ),
            _ => return None,
        },
    };
    let directory: Vec<u8> = join(base.as_slice(), "minivna".as_bytes());
    Some(join(directory.as_slice(), "minivna.toml".as_bytes()))
}

/// A path as seen from the current directory.
pub fn absolute_config_path(path: &[u8], current_directory: &[u8]) -> (whole: Vec<u8>)
    ensures
        whole@ == joined(current_directory@, path@),
{
    join(current_directory, path)
}

/// The path of the configuration file that the arguments name.
pub fn configured_path(arguments: &Vec<Vec<u8>>) -> (path: Option<Vec<u8>>)
    ensures
        match (path, named_path(arguments@, 1, None)) {
            (Some(path), Some(expected)) => path@ == expected,
            (None, None) => true,
            _ => false,
        },
{
    let mut found: Option<Vec<u8>> = None;
    let ghost mut seen: Option<Seq<u8>> = None;
    let mut i: usize = 1;
    while i < arguments.len()
        invariant
            1 <= i,
            match (found, seen) {
                (Some(found), Some(seen)) => found@ == seen,
                (None, None) => true,
                _ => false,
            },
            named_path(arguments@, 1, None) == named_path(arguments@, i as int, seen),
        decreases arguments.len() - i,
    {
        let argument: &Vec<u8> = &arguments[i];
        if same(argument.as_slice(), "--config".as_bytes()) {
            if i + 1 < arguments.len() {
                found = Some(copy_of(arguments[i + 1].as_slice()));
                proof {
                    seen = Some(arguments@[i + 1]@);
                }
                i = i + 2;
            } else {
                assert(named_path(arguments@, i + 2, None) == None::<Seq<u8>>);
                return None;
            }
        } else {
            let prefix: &[u8] = "--config=".as_bytes();
            if argument.len() >= prefix.len() {
                let head: &[u8] = slice_subrange(argument.as_slice(), 0, prefix.len());
                assert(head@ =~= argument@.take(prefix@.len() as int));
                if same(head, prefix) && text::utf8_text(argument).is_some() {
                    let rest: &[u8] = slice_subrange(
                        argument.as_slice(),
                        prefix.len(),
                        argument.len(),
                    );
                    assert(rest@ =~= argument@.skip(prefix@.len() as int));
                    found = Some(copy_of(rest));
                    proof {
                        seen = Some(rest@);
                    }
                }
            }
            i = i + 1;
        }
    }
    found
}

/// The path of the configuration file that a command line stands for, and none
/// if neither it nor the environment tells.
pub open spec fn command_line_path(
    arguments: Seq<Vec<u8>>,
    xdg: Option<Vec<u8>>,
    home: Option<Vec<u8>>,
    current_directory: Seq<u8>,
) -> Option<Seq<u8>> {
    match named_path(arguments, 1, None) {
        Some(path) => Some(joined(current_directory, path)),
        None => match config_file(xdg, home) {
            Some(path) => Some(joined(current_directory, path)),
            None => None,
        },
    }
}

pub fn config_path_from_arguments(
    arguments: &Vec<Vec<u8>>,
    xdg_config_home: &Option<Vec<u8>>,
    home: &Option<Vec<u8>>,
    current_directory: &[u8],
) -> (path: Option<Vec<u8>>)
    ensures
        match (
            path,
            command_line_path(arguments@, *xdg_config_home, *home, current_directory@),
        ) {
            (Some(path), Some(expected)) => path@ == expected,
            (None, None) => true,
            _ => false,
        },
{
    match configured_path(arguments) {
        Some(path) => Some(absolute_config_path(path.as_slice(), current_directory)),
        None => match config_path_from(xdg_config_home, home) {
            Some(path) => Some(absolute_config_path(path.as_slice(), current_directory)),
            None => None,
        },
    }
}

/// Whether a command line asks for JSON.
pub fn json_requested_in_arguments(arguments: &Vec<Vec<u8>>) -> (answer: bool)
    ensures
        answer == asks_for_json(arguments@, 1),
{
    let mut i: usize = 1;
    while i < arguments.len()
        invariant
            1 <= i,
            asks_for_json(arguments@, 1) == asks_for_json(arguments@, i as int),
        decreases arguments.len() - i,
    {
        if same(arguments[i].as_slice(), "--json".as_bytes()) {
            return true;
        }
        i = i + 1;
    }
    false
}

// ---------------------------------------------------------------------------
// Laws
// ---------------------------------------------------------------------------
/// The configuration file of an absolute home or configuration directory is an
/// absolute path, wherever the program runs.
pub proof fn law_config_path_is_absolute(
    xdg: Option<Vec<u8>>,
    home: Option<Vec<u8>>,
    current_directory: Seq<u8>,
)
    requires
        config_home(xdg, home) is Some,
        absolute(config_home(xdg, home)->0),
    ensures
        config_file(xdg, home) is Some,
        absolute(config_file(xdg, home)->0),
        joined(current_directory, config_file(xdg, home)->0) == config_file(xdg, home)->0,
{
    lemma_relative_names();
}

/// A configuration directory that is set wins over the home directory.
pub proof fn law_configuration_directory_wins(
    xdg: Vec<u8>,
    home: Option<Vec<u8>>,
    other: Option<Vec<u8>>,
)
    requires
        xdg@.len() > 0,
    ensures
        config_file(Some(xdg), home) == config_file(Some(xdg), other),
        config_file(Some(xdg), home) is Some,
{
}

proof fn lemma_relative_names()
    ensures
        !absolute(bytes_of("minivna"@)),
        !absolute(bytes_of("minivna.toml"@)),
{
    reveal_strlit("minivna");
    reveal_strlit("minivna.toml");
    assert(vstd::utf8::is_ascii_chars("minivna"@));
    assert(vstd::utf8::is_ascii_chars("minivna.toml"@));
    vstd::utf8::is_ascii_chars_encode_utf8("minivna"@);
    vstd::utf8::is_ascii_chars_encode_utf8("minivna.toml"@);
    assert("minivna"@[0] as u8 == bytes_of("minivna"@)[0]);
    assert("minivna.toml"@[0] as u8 == bytes_of("minivna.toml"@)[0]);
}

/// An absolute path is the same from everywhere. A relative one stands behind the
/// directory and a slash, which is not doubled.
pub proof fn law_joined_paths(directory: Seq<u8>, path: Seq<u8>)
    requires
        directory.len() > 0,
        directory.last() != 47,
    ensures
        joined(directory, seq![47u8] + path) == seq![47u8] + path,
        path.len() > 0 && path[0] != 47 ==> joined(directory, path) == directory + seq![47u8] + path
            && joined(directory.push(47), path) == directory + seq![47u8] + path,
{
    assert(directory.push(47) =~= directory + seq![47u8]);
    assert((seq![47u8] + path)[0] == 47);
}

proof fn lemma_ascii_bytes(name: Seq<char>)
    requires
        vstd::utf8::is_ascii_chars(name),
    ensures
        bytes_of(name).len() == name.len(),
        forall|i: int| 0 <= i < name.len() ==> #[trigger] bytes_of(name)[i] == name[i] as u8,
{
    vstd::utf8::is_ascii_chars_encode_utf8(name);
}

proof fn lemma_config_names()
    ensures
        seq![47u8] + bytes_of("minivna"@) + seq![47u8] + bytes_of("minivna.toml"@) == bytes_of(
            "/minivna/minivna.toml"@,
        ),
        seq![47u8] + bytes_of(".config"@) == bytes_of("/.config"@),
        bytes_of("minivna"@).len() == 7,
        bytes_of("minivna"@)[0] != 47,
        bytes_of("minivna"@).last() != 47,
        bytes_of("minivna.toml"@).len() == 12,
        bytes_of("minivna.toml"@)[0] != 47,
        bytes_of(".config"@).len() == 7,
        bytes_of(".config"@)[0] != 47,
        bytes_of(".config"@).last() != 47,
{
    reveal_strlit("minivna");
    reveal_strlit("minivna.toml");
    reveal_strlit("/minivna/minivna.toml");
    reveal_strlit(".config");
    reveal_strlit("/.config");
    lemma_ascii_bytes("minivna"@);
    lemma_ascii_bytes("minivna.toml"@);
    lemma_ascii_bytes("/minivna/minivna.toml"@);
    lemma_ascii_bytes(".config"@);
    lemma_ascii_bytes("/.config"@);
    let parts = seq![47u8] + bytes_of("minivna"@) + seq![47u8] + bytes_of("minivna.toml"@);
    let whole = bytes_of("/minivna/minivna.toml"@);
    assert forall|i: int| 0 <= i < 21 implies parts[i] == whole[i] by {
        if 1 <= i < 8 {
            assert(parts[i] == bytes_of("minivna"@)[i - 1]);
            assert("minivna"@[i - 1] == "/minivna/minivna.toml"@[i]);
        } else if 9 <= i {
            assert(parts[i] == bytes_of("minivna.toml"@)[i - 9]);
            assert("minivna.toml"@[i - 9] == "/minivna/minivna.toml"@[i]);
        }
    }
    assert(parts =~= whole);
    let dotted = seq![47u8] + bytes_of(".config"@);
    assert forall|i: int| 0 <= i < 8 implies dotted[i] == bytes_of("/.config"@)[i] by {
        if i > 0 {
            assert(dotted[i] == bytes_of(".config"@)[i - 1]);
            assert(".config"@[i - 1] == "/.config"@[i]);
        }
    }
    assert(dotted =~= bytes_of("/.config"@));
}

/// The configuration file is `minivna/minivna.toml` in the configuration directory
/// if one is set, and else in `.config` of the home directory. With neither there
/// is none. What is set to nothing is not set.
pub proof fn law_place_of_the_configuration(
    xdg: Option<Vec<u8>>,
    home: Option<Vec<u8>>,
)
    requires
        xdg matches Some(directory) ==> directory@.len() > 0 ==> directory@.last() != 47,
        home matches Some(directory) ==> directory@.len() > 0 ==> directory@.last() != 47,
    ensures
        config_file(xdg, home) == if xdg is Some && xdg->0@.len() > 0 {
            Some(xdg->0@ + bytes_of("/minivna/minivna.toml"@))
        } else if home is Some && home->0@.len() > 0 {
            Some(home->0@ + bytes_of("/.config"@) + bytes_of("/minivna/minivna.toml"@))
        } else {
            None
        },
{
    lemma_config_names();
    if config_home(xdg, home) is Some {
        let base = config_home(xdg, home)->0;
        let first = joined(base, bytes_of("minivna"@));
        if xdg is Some && xdg->0@.len() > 0 {
        } else {
            assert(base =~= home->0@ + bytes_of("/.config"@));
        }
        assert(base.last() != 47);
        assert(first == base + seq![47u8] + bytes_of("minivna"@));
        assert(first.last() == bytes_of("minivna"@).last());
        assert(config_file(xdg, home)->0 =~= base + (seq![47u8] + bytes_of("minivna"@) + seq![47u8]
            + bytes_of("minivna.toml"@)));
    }
}

/// The argument names a path by itself, behind an equals sign.
pub open spec fn names_a_path(argument: Seq<u8>) -> bool {
    vstd::utf8::valid_utf8(argument) && begins_with(argument, bytes_of("--config="@))
}

proof fn lemma_nothing_named(arguments: Seq<Vec<u8>>, i: int, found: Option<Seq<u8>>)
    requires
        0 <= i,
        forall|k: int|
            i <= k < arguments.len() ==> (#[trigger] arguments[k])@ != bytes_of("--config"@)
                && !names_a_path(arguments[k]@),
    ensures
        named_path(arguments, i, found) == found,
    decreases arguments.len() - i,
{
    if i < arguments.len() {
        assert(arguments[i]@ != bytes_of("--config"@));
        lemma_nothing_named(arguments, i + 1, found);
    }
}

proof fn lemma_up_to(arguments: Seq<Vec<u8>>, i: int, k: int, found: Option<Seq<u8>>)
    requires
        0 <= i <= k < arguments.len(),
        forall|j: int| i <= j < k ==> (#[trigger] arguments[j])@ != bytes_of("--config"@),
    ensures
        exists|sofar: Option<Seq<u8>>|
            named_path(arguments, i, found) == #[trigger] named_path(arguments, k, sofar),
    decreases k - i,
{
    if i < k {
        assert(arguments[i]@ != bytes_of("--config"@));
        if names_a_path(arguments[i]@) {
            let named = Some(arguments[i]@.skip(bytes_of("--config="@).len() as int));
            lemma_up_to(arguments, i + 1, k, named);
            assert(named_path(arguments, i, found) == named_path(arguments, i + 1, named));
        } else {
            lemma_up_to(arguments, i + 1, k, found);
            assert(named_path(arguments, i, found) == named_path(arguments, i + 1, found));
        }
    } else {
        assert(named_path(arguments, i, found) == named_path(arguments, k, found));
    }
}

/// The path of the last option that names one wins, whether it stands behind the
/// option or behind an equals sign. A command line without the option names none.
/// An option at the end, without a path, takes back what was named.
pub proof fn law_last_named_path_wins(arguments: Seq<Vec<u8>>, k: int, path: Seq<u8>)
    requires
        1 <= k < arguments.len(),
        forall|j: int| 1 <= j < k ==> (#[trigger] arguments[j])@ != bytes_of("--config"@),
    ensures
        arguments[k]@ == bytes_of("--config"@) && k + 1 < arguments.len() && (forall|j: int|
            k + 2 <= j < arguments.len() ==> (#[trigger] arguments[j])@ != bytes_of("--config"@)
                && !names_a_path(arguments[j]@)) ==> named_path(arguments, 1, None) == Some(
            arguments[k + 1]@,
        ),
        arguments[k]@ == bytes_of("--config"@) && k + 1 == arguments.len() ==> named_path(
            arguments,
            1,
            None,
        ) is None,
        arguments[k]@ == bytes_of("--config="@) + path && vstd::utf8::valid_utf8(arguments[k]@) && (
        forall|j: int|
            k + 1 <= j < arguments.len() ==> (#[trigger] arguments[j])@ != bytes_of("--config"@)
                && !names_a_path(arguments[j]@)) ==> named_path(arguments, 1, None) == Some(path),
{
    lemma_up_to(arguments, 1, k, None);
    let sofar = choose|sofar: Option<Seq<u8>>|
        named_path(arguments, 1, None) == #[trigger] named_path(arguments, k, sofar);
    if arguments[k]@ == bytes_of("--config"@) {
        if k + 1 < arguments.len() {
            if forall|j: int|
                k + 2 <= j < arguments.len() ==> (#[trigger] arguments[j])@ != bytes_of("--config"@)
                    && !names_a_path(arguments[j]@) {
                lemma_nothing_named(arguments, k + 2, Some(arguments[k + 1]@));
            }
        } else {
            assert(named_path(arguments, k + 2, None::<Seq<u8>>) is None);
        }
    } else if arguments[k]@ == bytes_of("--config="@) + path {
        let head = bytes_of("--config="@);
        assert(arguments[k]@.take(head.len() as int) =~= head);
        assert(arguments[k]@.skip(head.len() as int) =~= path);
        if forall|j: int|
            k + 1 <= j < arguments.len() ==> (#[trigger] arguments[j])@ != bytes_of("--config"@)
                && !names_a_path(arguments[j]@) {
            lemma_nothing_named(arguments, k + 1, Some(path));
        }
    }
    if arguments[k]@ == bytes_of("--config="@) + path {
        reveal_strlit("--config=");
        reveal_strlit("--config");
        lemma_ascii_bytes("--config="@);
        lemma_ascii_bytes("--config"@);
        assert(arguments[k]@.len() >= 9);
    }
}

/// A command line without the option for a configuration file names none.
pub proof fn law_no_path_is_named(arguments: Seq<Vec<u8>>)
    requires
        forall|j: int|
            1 <= j < arguments.len() ==> (#[trigger] arguments[j])@ != bytes_of("--config"@)
                && !names_a_path(arguments[j]@),
    ensures
        named_path(arguments, 1, None) is None,
{
    lemma_nothing_named(arguments, 1, None);
}

/// A command line asks for JSON exactly if one of its arguments is the option for
/// it; the first argument is the program.
pub proof fn law_json_is_asked_for(arguments: Seq<Vec<u8>>)
    ensures
        asks_for_json(arguments, 1) <==> exists|i: int|
            1 <= i < arguments.len() && (#[trigger] arguments[i])@ == bytes_of("--json"@),
{
    lemma_asks_for_json(arguments, 1);
}

proof fn lemma_asks_for_json(arguments: Seq<Vec<u8>>, from: int)
    requires
        0 <= from,
    ensures
        asks_for_json(arguments, from) <==> exists|i: int|
            from <= i < arguments.len() && (#[trigger] arguments[i])@ == bytes_of("--json"@),
    decreases arguments.len() - from,
{
    if from < arguments.len() {
        lemma_asks_for_json(arguments, from + 1);
    }
}

/// A path on the command line comes before the environment, and both are seen
/// from the current directory.
pub proof fn law_command_line_comes_first(
    arguments: Seq<Vec<u8>>,
    xdg: Option<Vec<u8>>,
    home: Option<Vec<u8>>,
    current_directory: Seq<u8>,
)
    requires
        current_directory.len() > 0,
        current_directory.last() != 47,
    ensures
        ({
            let named = named_path(arguments, 1, None);
            let chosen = if named is Some {
                named
            } else {
                config_file(xdg, home)
            };
            match command_line_path(arguments, xdg, home, current_directory) {
                Some(path) => chosen matches Some(chosen) && path == if chosen.len() > 0 && chosen[0]
                    == 47 {
                    chosen
                } else {
                    current_directory + seq![47u8] + chosen
                },
                None => chosen is None,
            }
        }),
{
}

} // verus!
