//! Which file a script's module is read from, and what kind of module the file holds.
use reqwest::Url;
use std::path::Path;
use vstd::prelude::*;
use vstd::string::*;

verus! {

/// What a module's file holds.
#[derive(Debug, Clone, Copy, PartialEq, Eq, Structural)]
pub enum ModuleKind {
    JavaScript,
    Json,
}

/// The path of a file, as text: `None` for no path at all, `Some(None)` for a path that is not
/// text.
pub open spec fn path_text(path: Option<Option<String>>) -> Option<Option<Seq<char>>> {
    match path {
        Some(Some(text)) => Some(Some(text@)),
        Some(None) => Some(None),
        None => None,
    }
}

/// The path of the file that a URL stands for on the platform that the library is built for, if
/// it stands for one.
pub uninterp spec fn url_file_path(url: Seq<char>) -> Option<Option<Seq<char>>>;

/// `reqwest::Url::to_file_path`, the URL and the path as text.
#[verifier::external_body]
fn file_path(url: &str) -> (r: Option<Option<String>>)
    ensures
        path_text(r) == url_file_path(url@),
{
    let path = Url::parse(url).ok()?.to_file_path().ok()?;
    Some(path.to_str().map(|text| text.to_string()))
}

/// The extension of the file that a path names on the platform that the library is built for, if
/// it has one.
pub uninterp spec fn file_extension(path: Seq<char>) -> Option<Seq<char>>;

/// What comes after the last slash of a path.
pub open spec fn last_part(path: Seq<char>) -> Seq<char> {
    match path.index_of_last('/') {
        Some(slash) => path.skip(slash + 1),
        None => path,
    }
}

/// The extension of a file name: what comes after its last dot, unless that is its first
/// character or there is none.
pub open spec fn name_extension(name: Seq<char>) -> Option<Seq<char>> {
    match name.index_of_last('.') {
        Some(dot) => if dot > 0 {
            Some(name.skip(dot + 1))
        } else {
            None
        },
        None => None,
    }
}

/// Whether every platform reads a path alike, with a file name after the last slash: it holds no
/// backslash and no colon, does not begin with two slashes, and ends in neither a slash nor a
/// part that stands for a directory.
pub open spec fn is_plain_path(path: Seq<char>) -> bool {
    &&& !path.contains('\\')
    &&& !path.contains(':')
    &&& !(path.len() > 1 && path[0] == '/' && path[1] == '/')
    &&& last_part(path).len() > 0
    &&& last_part(path) != seq!['.']
    &&& last_part(path) != seq!['.', '.']
}

/// An optional text as a sequence of characters.
pub open spec fn optional_text(text: Option<String>) -> Option<Seq<char>> {
    match text {
        Some(text) => Some(text@),
        None => None,
    }
}

/// `std::path::Path::extension`, the path and the extension as text. Of a plain path it is what
/// comes after the last dot of the file name; what counts as the file name of any other path is
/// left to the platform.
#[verifier::external_body]
fn path_extension(path: &str) -> (r: Option<String>)
    ensures
        optional_text(r) == file_extension(path@),
        is_plain_path(path@) ==> optional_text(r) == name_extension(last_part(path@)),
{
    Path::new(path).extension().and_then(|extension| extension.to_str()).map(String::from)
}

/// A path without its first byte; nothing where the first character is longer than that.
pub open spec fn without_root(path: Seq<char>) -> Seq<char> {
    if path.len() > 0 && (path[0] as u32) < 128 {
        path.subrange(1, path.len() as int)
    } else {
        Seq::empty()
    }
}

/// What is said of a module specifier that stands for no file.
pub open spec fn not_a_file(specifier: Seq<char>) -> Seq<char> {
    "Provided module specifier \""@ + specifier + "\" is not a file URL."@
}

/// A path without its first byte; nothing where the first character is longer than that.
pub fn strip_root(path: &str) -> (r: String)
    ensures
        r@ == without_root(path@),
{
    if path.is_empty() {
        return String::new();
    }
    let first: char = path.get_char(0);
    if (first as u32) < 128 {
        path.substring_char(1, path.unicode_len()).to_owned()
    } else {
        String::new()
    }
}

/// The path, relative to the root, of the module `specifier`, `path` being that of the file that
/// it stands for.
pub fn relative_path(specifier: &str, path: Option<Option<String>>) -> (r: Result<String, String>)
    ensures
        match path_text(path) {
            Some(Some(text)) => r matches Ok(relative) && relative@ == without_root(text),
            Some(None) => r matches Ok(relative) && relative@ == Seq::<char>::empty(),
            None => r matches Err(message) && message@ == not_a_file(specifier@),
        },
        path matches Some(Some(text)) ==> (r matches Ok(relative) && relative@ == without_root(
            text@,
        )),
        path matches Some(None) ==> (r matches Ok(relative) && relative@.len() == 0),
        path is None <==> r is Err,
{
    match path {
        Some(Some(text)) => Ok(strip_root(text.as_str())),
        Some(None) => Ok(String::new()),
        None => {
            let mut message = "Provided module specifier \"".to_owned();
            message.append(specifier);
            message.append("\" is not a file URL.");
            Err(message)
        },
    }
}

/// The path, relative to the root, of the file that the module `specifier` is read from, or why
/// there is none.
pub fn module_file(specifier: &str) -> (r: Result<String, String>)
    ensures
        match url_file_path(specifier@) {
            Some(Some(text)) => r matches Ok(relative) && relative@ == without_root(text),
            Some(None) => r matches Ok(relative) && relative@ == Seq::<char>::empty(),
            None => r matches Err(message) && message@ == not_a_file(specifier@),
        },
{
    relative_path(specifier, file_path(specifier))
}

/// The kind of module that a file with this extension holds.
pub open spec fn kind_of(extension: Option<Seq<char>>) -> ModuleKind {
    if extension == Some("json"@) {
        ModuleKind::Json
    } else {
        ModuleKind::JavaScript
    }
}

/// The kind of module that a file with this extension holds.
pub fn extension_kind(extension: Option<String>) -> (r: ModuleKind)
    ensures
        r == kind_of(optional_text(extension)),
        r is Json <==> (extension matches Some(text) && text@ == "json"@),
{
    match extension {
        Some(text) => if text == "json".to_owned() {
            ModuleKind::Json
        } else {
            ModuleKind::JavaScript
        },
        None => ModuleKind::JavaScript,
    }
}

/// The kind of module that the file at `path` holds.
pub fn module_kind(path: &str) -> (r: ModuleKind)
    ensures
        r == kind_of(file_extension(path@)),
        is_plain_path(path@) ==> r == kind_of(name_extension(last_part(path@))),
        r is Json <==> file_extension(path@) == Some("json"@),
{
    extension_kind(path_extension(path))
}

/// A file whose name ends in `.json`, with something before that, holds JSON, wherever it lies.
pub proof fn json_files_hold_json(directory: Seq<char>, stem: Seq<char>)
    requires
        stem.len() > 0,
        !stem.contains('/'),
    ensures
        kind_of(name_extension(last_part(directory + seq!['/'] + stem + ".json"@)))
            == ModuleKind::Json,
{
    reveal_strlit(".json");
    reveal_strlit("json");
    let name = stem + ".json"@;
    let path = directory + seq!['/'] + stem + ".json"@;
    path.index_of_last_ensures('/');
    assert(path[directory.len() as int] == '/');
    assert forall|i: int| directory.len() < i < path.len() implies path[i] != '/' by {
        if i <= directory.len() + stem.len() {
            assert(path[i] == stem[i - directory.len() - 1]);
        }
    }
    assert(last_part(path) =~= name);
    name.index_of_last_ensures('.');
    assert(name[stem.len() as int] == '.');
    assert(name.skip(stem.len() as int + 1) =~= "json"@);
}

/// Below a root of one slash the relative path is the path again: no two files get mixed up.
pub proof fn relative_path_keeps_the_file(path: Seq<char>)
    requires
        path.len() > 0,
        path[0] == '/',
    ensures
        seq!['/'] + without_root(path) == path,
{
}

/// What comes after the last slash is the name that was put there.
pub proof fn the_last_part_is_the_name(directory: Seq<char>, name: Seq<char>)
    requires
        !name.contains('/'),
    ensures
        last_part(directory + seq!['/'] + name) == name,
        last_part(name) == name,
{
    let path = directory + seq!['/'] + name;
    path.index_of_last_ensures('/');
    name.index_of_last_ensures('/');
    assert(path[directory.len() as int] == '/');
    assert forall|i: int| directory.len() < i < path.len() implies path[i] != '/' by {
        assert(path[i] == name[i - directory.len() - 1]);
    }
    assert(last_part(path) =~= name);
}

/// The extension of a name is what was put after its last dot, where something comes before the
/// dot; a name without a dot has none, nor has one whose only dot comes first.
pub proof fn the_extension_is_what_follows_the_last_dot(stem: Seq<char>, extension: Seq<char>)
    requires
        !extension.contains('.'),
    ensures
        stem.len() > 0 ==> name_extension(stem + seq!['.'] + extension) == Some(extension),
        name_extension(seq!['.'] + extension) is None,
        name_extension(extension) is None,
{
    let name = stem + seq!['.'] + extension;
    name.index_of_last_ensures('.');
    assert(name[stem.len() as int] == '.');
    assert forall|i: int| stem.len() < i < name.len() implies name[i] != '.' by {
        assert(name[i] == extension[i - stem.len() - 1]);
    }
    if stem.len() > 0 {
        assert(name.skip(stem.len() as int + 1) =~= extension);
    }
    let hidden = seq!['.'] + extension;
    hidden.index_of_last_ensures('.');
    assert(hidden[0] == '.');
    assert forall|i: int| 0 < i < hidden.len() implies hidden[i] != '.' by {
        assert(hidden[i] == extension[i - 1]);
    }
    extension.index_of_last_ensures('.');
}

/// Two files that both hold JSON have the same extension, and a file without one holds
/// JavaScript.
pub proof fn one_extension_alone_is_json(one: Option<Seq<char>>, other: Option<Seq<char>>)
    ensures
        kind_of(one) == ModuleKind::Json && kind_of(other) == ModuleKind::Json ==> one == other,
        kind_of(one) == ModuleKind::Json ==> one is Some,
        kind_of(Some(seq!['j', 's', 'o', 'n'])) == ModuleKind::Json,
        one != Some(seq!['j', 's', 'o', 'n']) ==> kind_of(one) == ModuleKind::JavaScript,
{
    reveal_strlit("json");
    assert("json"@ =~= seq!['j', 's', 'o', 'n']);
}

/// A file holds JSON if and only if its name ends in `.json` with something before that, wherever
/// it lies: any other file holds JavaScript.
pub proof fn only_json_files_hold_json(directory: Seq<char>, name: Seq<char>)
    requires
        !name.contains('/'),
    ensures
        kind_of(name_extension(last_part(directory + seq!['/'] + name))) == ModuleKind::Json <==> (
        name.len() > 5 && name.skip(name.len() - 5) == seq!['.', 'j', 's', 'o', 'n']),
        kind_of(name_extension(last_part(directory + seq!['/'] + name))) == ModuleKind::JavaScript
            <==> !(name.len() > 5 && name.skip(name.len() - 5) == seq!['.', 'j', 's', 'o', 'n']),
        kind_of(name_extension(last_part(name))) == kind_of(
            name_extension(last_part(directory + seq!['/'] + name)),
        ),
{
    let json = seq!['j', 's', 'o', 'n'];
    let ending = seq!['.', 'j', 's', 'o', 'n'];
    the_last_part_is_the_name(directory, name);
    one_extension_alone_is_json(name_extension(name), Some(json));
    name.index_of_last_ensures('.');
    if name.len() > 5 && name.skip(name.len() - 5) == ending {
        let stem = name.take(name.len() - 5);
        assert(!json.contains('.'));
        the_extension_is_what_follows_the_last_dot(stem, json);
        assert(stem + seq!['.'] + json =~= name) by {
            assert forall|i: int| 0 <= i < 5 implies name[name.len() - 5 + i]
                == #[trigger] ending[i] by {
                assert(name.skip(name.len() - 5)[i] == ending[i]);
            }
        }
    } else if name_extension(name) == Some(json) {
        let dot = name.index_of_last('.')->Some_0;
        assert(name.skip(dot + 1) == json);
        assert(name.skip(dot + 1).len() == 4);
        assert(dot == name.len() - 5);
        assert(name.skip(name.len() - 5) =~= ending) by {
            assert forall|i: int| 1 <= i < 5 implies name[dot + i] == #[trigger] ending[i] by {
                assert(name.skip(dot + 1)[i - 1] == json[i - 1]);
            }
        }
    }
}

/// Only the first character of a path is dropped, and only where it is one of ASCII; of any other
/// path nothing is left.
pub proof fn one_character_is_dropped(path: Seq<char>)
    ensures
        path.len() > 0 && (path[0] as u32) < 128 ==> seq![path[0]] + without_root(path) == path,
        path.len() == 0 || path[0] as u32 >= 128 ==> without_root(path).len() == 0,
{
}

/// What is said of a specifier that stands for no file quotes it whole.
pub proof fn the_message_quotes_the_specifier(one: Seq<char>, other: Seq<char>)
    ensures
        not_a_file(one).len() == one.len() + 47,
        not_a_file(one).subrange(27, 27 + one.len() as int) == one,
        "Provided module specifier \""@.is_prefix_of(not_a_file(one)),
        "\" is not a file URL."@.is_suffix_of(not_a_file(one)),
        not_a_file(one) == not_a_file(other) ==> one == other,
{
    reveal_strlit("Provided module specifier \"");
    reveal_strlit("\" is not a file URL.");
    assert(not_a_file(one).subrange(27, 27 + one.len() as int) =~= one);
    assert(not_a_file(other).subrange(27, 27 + other.len() as int) =~= other);
}

/// A path is seen as what it is: none as none, one that is not text as such, and a text with each
/// of its characters.
pub proof fn a_path_is_seen_as_it_is(path: Option<Option<String>>)
    ensures
        path_text(path) is None <==> path is None,
        path_text(path) == Some(None::<Seq<char>>) <==> path == Some(None::<String>),
        path matches Some(Some(text)) ==> path_text(path)->Some_0->Some_0 == text@,
{
}

/// An optional text is there or not as it was, with each of its characters.
pub proof fn an_optional_text_is_seen_as_it_is(text: Option<String>)
    ensures
        optional_text(text) is Some <==> text is Some,
        text matches Some(inner) ==> optional_text(text)->Some_0 == inner@,
{
}

} // verus!
