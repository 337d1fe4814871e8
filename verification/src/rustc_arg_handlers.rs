//! Reading the arguments that build a unit.

use crate::errors::Error;
use crate::text::{
    after_first, before_first, chars_of, find, find_is_first, has_match, remove_matches,
    same_text, strings_view, text_of, without,
};
use vstd::prelude::*;

verus! {

/// The first position at or after `from` of an argument equal to `name`.
pub open spec fn argument_from(args: Seq<Seq<char>>, name: Seq<char>, from: int) -> Option<int>
    decreases args.len() - from,
{
    if from < 0 || from >= args.len() {
        None
    } else if args[from] == name {
        Some(from)
    } else {
        argument_from(args, name, from + 1)
    }
}

/// A position that `argument_from` returns holds `name`, and none before it
/// does.
pub proof fn argument_is_first(args: Seq<Seq<char>>, name: Seq<char>, from: int)
    requires
        0 <= from,
    ensures
        match argument_from(args, name, from) {
            Some(at) => from <= at < args.len() && args[at] == name && forall|j: int|
                from <= j < at ==> args[j] != name,
            None => forall|j: int| from <= j < args.len() ==> args[j] != name,
        },
    decreases args.len() - from,
{
    if from < args.len() && args[from] != name {
        argument_is_first(args, name, from + 1);
    }
}

fn position(args: &[String], name: &str) -> (found: Option<usize>)
    ensures
        match found {
            Some(at) => argument_from(strings_view(args@), name@, 0) == Some(at as int) && at
                < args@.len(),
            None => argument_from(strings_view(args@), name@, 0) is None,
        },
{
    let mut i: usize = 0;
    while i < args.len()
        invariant
            i <= args@.len(),
            argument_from(strings_view(args@), name@, 0) == argument_from(
                strings_view(args@),
                name@,
                i as int,
            ),
        decreases args@.len() - i,
    {
        assert(strings_view(args@)[i as int] == args@[i as int]@);
        if same_text(args[i].as_str(), name) {
            return Some(i);
        }
        i += 1;
    }
    None
}

/// The argument that stands `offset` places behind the first `name`, if
/// there is a `name` and the arguments go that far.
pub open spec fn argument_behind(args: Seq<Seq<char>>, name: Seq<char>, offset: int) -> Option<
    Seq<char>,
> {
    match argument_from(args, name, 0) {
        Some(at) => if at + offset < args.len() {
            Some(args[at + offset])
        } else {
            None
        },
        None => None,
    }
}

fn behind(args: &[String], name: &str, offset: usize) -> (found: Option<String>)
    ensures
        match found {
            Some(text) => argument_behind(strings_view(args@), name@, offset as int) == Some(
                text@,
            ),
            None => argument_behind(strings_view(args@), name@, offset as int) is None,
        },
{
    match position(args, name) {
        Some(at) => {
            if offset < args.len() - at {
                assert(strings_view(args@)[at + offset] == args@[at + offset]@);
                Some(args[at + offset].clone())
            } else {
                None
            }
        },
        None => None,
    }
}

/// The path of the sources: the third argument behind `--crate-name`.
pub fn get_location(args: &[String]) -> (location: Result<String, Error>)
    ensures
        match argument_behind(strings_view(args@), "--crate-name"@, 3) {
            Some(text) => location matches Ok(found) && found@ == text,
            None => location == Err::<String, Error>(Error::SrcLocationMissing),
        },
{
    match behind(args, "--crate-name", 3) {
        Some(text) => Ok(text),
        None => Err(Error::SrcLocationMissing),
    }
}

/// The name of the unit: the argument behind `--crate-name`.
pub fn get_crate_name(args: &[String]) -> (name: Result<String, Error>)
    ensures
        match argument_behind(strings_view(args@), "--crate-name"@, 1) {
            Some(text) => name matches Ok(found) && found@ == text,
            None => name == Err::<String, Error>(Error::CrateNameMissing),
        },
{
    match behind(args, "--crate-name", 1) {
        Some(text) => Ok(text),
        None => Err(Error::CrateNameMissing),
    }
}

/// Whether one of `args` is `arg_name`.
pub fn have_arg(args: &Vec<String>, arg_name: &str) -> (found: bool)
    ensures
        found == strings_view(args@).contains(arg_name@),
{
    proof {
        argument_is_first(strings_view(args@), arg_name@, 0);
    }
    match position(args.as_slice(), arg_name) {
        Some(at) => {
            assert(strings_view(args@)[at as int] == arg_name@);
            true
        },
        None => false,
    }
}

/// The position of the output directory: that of the argument behind the
/// first `--out-dir`.
pub fn get_target_path_index(args: &Vec<String>) -> (index: Result<usize, Error>)
    ensures
        match argument_from(strings_view(args@), "--out-dir"@, 0) {
            Some(at) => if at + 1 < args@.len() {
                index == Ok::<usize, Error>((at + 1) as usize)
            } else {
                index == Err::<usize, Error>(Error::TargetPathMissing)
            },
            None => index == Err::<usize, Error>(Error::TargetPathMissing),
        },
{
    match position(args.as_slice(), "--out-dir") {
        Some(at) => {
            if args.len() - at > 1 {
                Ok(at + 1)
            } else {
                Err(Error::TargetPathMissing)
            }
        },
        None => Err(Error::TargetPathMissing),
    }
}

/// Whether `out_dir` can be an output directory: every text can.
pub fn is_valid_out_dir(_out_dir: &str) -> (valid: bool)
    ensures
        valid,
{
    true
}

/// The path under which the arguments of the dependencies are kept, for
/// the output directory `out_dir`: what stands before the first `target/`,
/// then `target/no-panic/`, then what stands between the first `target/`
/// and the next, and from all of that the directories of the profile and
/// of the platform taken out, one after the other.
pub open spec fn unpanic_path(out_dir: Seq<char>) -> Seq<char> {
    let head = before_first(out_dir, "target/"@);
    let tail = before_first(after_first(out_dir, "target/"@)->0, "target/"@);
    without(
        without(
            without(without(head + "target/no-panic/"@ + tail, "/debug"@), "/release"@),
            "/build"@,
        ),
        "/x86_64-unknown-linux-gnu"@,
    )
}

/// The path under which the arguments of the dependencies are kept, for
/// the output directory at position `index` of `args`.
pub fn get_unpanic_path(args: &[String], index: usize) -> (path: Result<String, Error>)
    requires
        index < args@.len(),
        has_match(args@[index as int]@, "target/"@),
    ensures
        path matches Ok(found) && found@ == unpanic_path(args@[index as int]@),
{
    let out_dir = chars_of(args[index].as_str());
    if !is_valid_out_dir(args[index].as_str()) {
        return Err(Error::InvalidOutDir);
    }
    let mark = chars_of("target/");
    let fresh = chars_of("target/no-panic/");
    proof {
        find_is_first(out_dir@, mark@, 0);
    }
    let first = match find(&out_dir, &mark, 0) {
        Some(at) => at,
        None => {
            return Err(Error::InvalidOutDir);
        },
    };
    let whole = out_dir.len();
    assert(first + mark@.len() <= whole);
    let behind = first + mark.len();
    let ghost rest = out_dir@.subrange(behind as int, out_dir@.len() as int);
    let mut tail: Vec<char> = Vec::new();
    let mut i: usize = behind;
    while i < out_dir.len()
        invariant
            behind <= i <= out_dir@.len(),
            tail@ == out_dir@.subrange(behind as int, i as int),
        decreases out_dir@.len() - i,
    {
        tail.push(out_dir[i]);
        assert(tail@ =~= out_dir@.subrange(behind as int, i + 1));
        i += 1;
    }
    assert(tail@ =~= rest);
    proof {
        find_is_first(tail@, mark@, 0);
    }
    let end = match find(&tail, &mark, 0) {
        Some(at) => at,
        None => tail.len(),
    };
    let mut joined: Vec<char> = Vec::new();
    let mut i: usize = 0;
    while i < first
        invariant
            i <= first <= out_dir@.len(),
            joined@ == out_dir@.subrange(0, i as int),
        decreases first - i,
    {
        joined.push(out_dir[i]);
        assert(joined@ =~= out_dir@.subrange(0, i + 1));
        i += 1;
    }
    let mut i: usize = 0;
    while i < fresh.len()
        invariant
            i <= fresh@.len(),
            first <= out_dir@.len(),
            joined@ == out_dir@.subrange(0, first as int) + fresh@.subrange(0, i as int),
        decreases fresh@.len() - i,
    {
        joined.push(fresh[i]);
        assert(joined@ =~= out_dir@.subrange(0, first as int) + fresh@.subrange(0, i + 1));
        i += 1;
    }
    let mut i: usize = 0;
    while i < end
        invariant
            i <= end <= tail@.len(),
            first <= out_dir@.len(),
            joined@ == out_dir@.subrange(0, first as int) + fresh@ + tail@.subrange(0, i as int),
            fresh@ == "target/no-panic/"@,
        decreases end - i,
    {
        joined.push(tail[i]);
        assert(joined@ =~= out_dir@.subrange(0, first as int) + fresh@ + tail@.subrange(
            0,
            i + 1,
        )) by {
            assert(fresh@.subrange(0, fresh@.len() as int) =~= fresh@);
        }
        i += 1;
    }
    assert(joined@ =~= before_first(out_dir@, mark@) + fresh@ + before_first(rest, mark@)) by {
        assert(fresh@.subrange(0, fresh@.len() as int) =~= fresh@);
        assert(tail@.subrange(0, tail@.len() as int) =~= tail@);
    }
    let debug = chars_of("/debug");
    let release = chars_of("/release");
    let build = chars_of("/build");
    let platform = chars_of("/x86_64-unknown-linux-gnu");
    let cut = remove_matches(&joined, &debug);
    let cut = remove_matches(&cut, &release);
    let cut = remove_matches(&cut, &build);
    let cut = remove_matches(&cut, &platform);
    Ok(text_of(&cut, 0, cut.len()))
}


/// Whether the argument `arg` carries a value for `name`: `name` stands in
/// it, and it is more than `name`.
pub open spec fn carries(arg: Seq<char>, name: Seq<char>) -> bool {
    has_match(arg, name) && arg != name
}

/// The value that an argument carries: what stands between its first `=`
/// and the next, or its end.
pub open spec fn value_of(arg: Seq<char>) -> Seq<char> {
    before_first(after_first(arg, "="@)->0, "="@)
}

/// The values that the first `upto` of `args` carry for `name`, in order.
pub open spec fn values_upto(args: Seq<Seq<char>>, name: Seq<char>, upto: int) -> Seq<Seq<char>>
    decreases upto,
{
    if upto <= 0 {
        Seq::empty()
    } else if carries(args[upto - 1], name) {
        values_upto(args, name, upto - 1).push(value_of(args[upto - 1]))
    } else {
        values_upto(args, name, upto - 1)
    }
}

/// The values that `args` carry for `name`.
pub open spec fn values(args: Seq<Seq<char>>, name: Seq<char>) -> Seq<Seq<char>> {
    values_upto(args, name, args.len() as int)
}

/// Whether every argument that carries a value for `name` holds a `=`.
pub open spec fn values_are_marked(args: Seq<Seq<char>>, name: Seq<char>) -> bool {
    forall|i: int| 0 <= i < args.len() && carries(#[trigger] args[i], name) ==> has_match(args[i], "="@)
}

fn value(arg: &Vec<char>) -> (text: String)
    requires
        has_match(arg@, "="@),
    ensures
        text@ == value_of(arg@),
{
    let mark = chars_of("=");
    let first = match find(arg, &mark, 0) {
        Some(at) => at,
        None => {
            return String::new();
        },
    };
    let whole = arg.len();
    assert(first + mark@.len() <= whole);
    let behind = first + mark.len();
    let ghost rest = arg@.subrange(behind as int, arg@.len() as int);
    let mut tail: Vec<char> = Vec::new();
    let mut i: usize = behind;
    while i < arg.len()
        invariant
            behind <= i <= arg@.len(),
            tail@ == arg@.subrange(behind as int, i as int),
        decreases arg@.len() - i,
    {
        tail.push(arg[i]);
        assert(tail@ =~= arg@.subrange(behind as int, i + 1));
        i += 1;
    }
    assert(tail@ =~= rest);
    let end = match find(&tail, &mark, 0) {
        Some(at) => at,
        None => tail.len(),
    };
    let text = text_of(&tail, 0, end);
    assert(tail@.subrange(0, tail@.len() as int) =~= tail@);
    text
}

/// The values that `args` carry for `arg_name`.
pub fn get_arg(args: &[String], arg_name: &str) -> (found: Vec<String>)
    requires
        values_are_marked(strings_view(args@), arg_name@),
    ensures
        strings_view(found@) == values(strings_view(args@), arg_name@),
{
    let name = chars_of(arg_name);
    let ghost texts = strings_view(args@);
    let mut found: Vec<String> = Vec::new();
    assert(strings_view(found@) =~= values_upto(texts, arg_name@, 0));
    let mut i: usize = 0;
    while i < args.len()
        invariant
            i <= args@.len(),
            name@ == arg_name@,
            texts == strings_view(args@),
            values_are_marked(texts, arg_name@),
            strings_view(found@) == values_upto(texts, arg_name@, i as int),
        decreases args@.len() - i,
    {
        assert(texts[i as int] == args@[i as int]@);
        let arg = chars_of(args[i].as_str());
        if find(&arg, &name, 0).is_some() && !same_text(args[i].as_str(), arg_name) {
            assert(carries(texts[i as int], arg_name@));
            let text = value(&arg);
            let ghost before = strings_view(found@);
            let ghost added = text@;
            found.push(text);
            assert(strings_view(found@) =~= before.push(added));
        }
        i += 1;
    }
    found
}

/// The directory of the dependencies: the one value that `args` carry for
/// `dependency`.
pub fn get_dep_path(args: &[String]) -> (path: String)
    requires
        values_are_marked(strings_view(args@), "dependency"@),
        values(strings_view(args@), "dependency"@).len() == 1,
    ensures
        path@ == values(strings_view(args@), "dependency"@)[0],
{
    let paths = get_arg(args, "dependency");
    assert(strings_view(paths@)[0] == paths@[0]@);
    paths[0].clone()
}

/// The arguments that stand behind each of the first `upto` arguments
/// that is `--extern`.
pub open spec fn externs_upto(args: Seq<Seq<char>>, upto: int) -> Seq<Seq<char>>
    decreases upto,
{
    if upto <= 0 {
        Seq::empty()
    } else if args[upto - 1] == "--extern"@ {
        externs_upto(args, upto - 1).push(args[upto])
    } else {
        externs_upto(args, upto - 1)
    }
}

/// The arguments that stand behind each `--extern`.
pub fn _get_externs(args: &[String]) -> (externs: Vec<String>)
    requires
        args@.len() > 0 ==> args@[args@.len() - 1]@ != "--extern"@,
    ensures
        strings_view(externs@) == externs_upto(strings_view(args@), args@.len() as int),
{
    let ghost texts = strings_view(args@);
    let mut externs: Vec<String> = Vec::new();
    assert(strings_view(externs@) =~= externs_upto(texts, 0));
    let mut i: usize = 0;
    while i < args.len()
        invariant
            i <= args@.len(),
            texts == strings_view(args@),
            args@.len() > 0 ==> args@[args@.len() - 1]@ != "--extern"@,
            strings_view(externs@) == externs_upto(texts, i as int),
        decreases args@.len() - i,
    {
        assert(texts[i as int] == args@[i as int]@);
        if same_text(args[i].as_str(), "--extern") {
            assert(i + 1 < args@.len());
            assert(texts[i + 1] == args@[i + 1]@);
            let ghost before = strings_view(externs@);
            externs.push(args[i + 1].clone());
            assert(strings_view(externs@) =~= before.push(texts[i + 1]));
        }
        i += 1;
    }
    externs
}

/// How many bytes a character takes when a text is stored.
pub open spec fn stored_width(ch: char) -> int {
    if (ch as u32) < 0x80 {
        1
    } else if (ch as u32) < 0x800 {
        2
    } else if (ch as u32) < 0x10000 {
        3
    } else {
        4
    }
}

/// How many characters at the start of `text` take exactly `bytes` bytes,
/// if some number of them does.
pub open spec fn chars_filling(text: Seq<char>, bytes: int) -> Option<int>
    decreases text.len(),
{
    if bytes == 0 {
        Some(0)
    } else if bytes < 0 || text.len() == 0 {
        None
    } else {
        match chars_filling(text.drop_first(), bytes - stored_width(text[0])) {
            Some(count) => Some(count + 1),
            None => None,
        }
    }
}

/// The name of the unit that the file `path` holds: the file's name up to
/// its first `-`, without its first three bytes.
pub open spec fn unit_name(path: Seq<char>) -> Option<Seq<char>> {
    let first_part = before_first(path, "-"@);
    match chars_filling(first_part, 3) {
        Some(count) => Some(first_part.subrange(count, first_part.len() as int)),
        None => None,
    }
}

fn width_of(ch: char) -> (width: usize)
    ensures
        width == stored_width(ch),
{
    let code = ch as u32;
    if code < 0x80 {
        1
    } else if code < 0x800 {
        2
    } else if code < 0x10000 {
        3
    } else {
        4
    }
}

/// The name of the unit that the compiled file `path` holds.
pub fn name_from_path_string(path: &String) -> (name: String)
    requires
        unit_name(path@) is Some,
    ensures
        Some(name@) == unit_name(path@),
{
    let chars = chars_of(path.as_str());
    let mark = chars_of("-");
    let end = match find(&chars, &mark, 0) {
        Some(at) => at,
        None => chars.len(),
    };
    let ghost first_part = before_first(path@, "-"@);
    assert(first_part =~= chars@.subrange(0, end as int));
    let mut taken: usize = 0;
    let mut left: usize = 3;
    assert(first_part.subrange(0, end as int) =~= first_part);
    while left > 0
        invariant
            taken <= end <= chars@.len(),
            left <= 3,
            first_part == chars@.subrange(0, end as int),
            chars_filling(first_part, 3) is Some,
            chars_filling(first_part.subrange(taken as int, end as int), left as int) is Some,
            chars_filling(first_part, 3)->0 == taken + chars_filling(
                first_part.subrange(taken as int, end as int),
                left as int,
            )->0,
        decreases left,
    {
        let ghost rest = first_part.subrange(taken as int, end as int);
        assert(rest.len() > 0);
        assert(rest[0] == chars@[taken as int]);
        assert(rest.drop_first() =~= first_part.subrange(taken + 1, end as int));
        let width = width_of(chars[taken]);
        assert(chars_filling(rest.drop_first(), left - stored_width(rest[0])) is Some);
        assert(width <= left);
        left = left - width;
        taken = taken + 1;
    }
    assert(first_part.subrange(0, end as int) =~= first_part);
    let name = text_of(&chars, taken, end);
    assert(name@ =~= first_part.subrange(taken as int, first_part.len() as int));
    name
}

/// An edition of the language.
#[derive(Clone, Copy, PartialEq, Eq, Structural, Debug)]
pub enum Edition {
    Edition2015,
    Edition2018,
    Edition2021,
}

/// The edition that `text` names, if it names one.
pub open spec fn edition_named(text: Seq<char>) -> Option<Edition> {
    if text == "2015"@ {
        Some(Edition::Edition2015)
    } else if text == "2018"@ {
        Some(Edition::Edition2018)
    } else if text == "2021"@ {
        Some(Edition::Edition2021)
    } else {
        None
    }
}

/// The edition that `text` names, if it names one.
pub fn parse_edition(text: &str) -> (edition: Option<Edition>)
    ensures
        edition == edition_named(text@),
{
    if same_text(text, "2015") {
        Some(Edition::Edition2015)
    } else if same_text(text, "2018") {
        Some(Edition::Edition2018)
    } else if same_text(text, "2021") {
        Some(Edition::Edition2021)
    } else {
        None
    }
}

/// The edition that `args` ask for: the one value that they carry for
/// `--edition=`.
pub fn get_edition(args: &[String]) -> (edition: Edition)
    requires
        values_are_marked(strings_view(args@), "--edition="@),
        values(strings_view(args@), "--edition="@).len() == 1,
        edition_named(values(strings_view(args@), "--edition="@)[0]) is Some,
    ensures
        Some(edition) == edition_named(values(strings_view(args@), "--edition="@)[0]),
{
    let found = get_arg(args, "--edition=");
    assert(strings_view(found@)[0] == found@[0]@);
    match parse_edition(found[0].as_str()) {
        Some(edition) => edition,
        None => Edition::Edition2021,
    }
}

/// `text` with `_` in place of each `-`.
pub open spec fn underscored(text: Seq<char>) -> Seq<char> {
    text.map_values(|ch: char| if ch == '-' { '_' } else { ch })
}

/// Whether `args` build a dependency of the target named `target_crate`:
/// whether the unit that they name is another than the target, with `_`
/// for each `-` of the target's name.
pub fn is_dependency(args: &Vec<String>, target_crate: &str) -> (dependency: bool)
    requires
        argument_behind(strings_view(args@), "--crate-name"@, 1) is Some,
    ensures
        dependency == (underscored(target_crate@) != argument_behind(
            strings_view(args@),
            "--crate-name"@,
            1,
        )->0),
{
    let target = chars_of(target_crate);
    let mut replaced: Vec<char> = Vec::new();
    let mut i: usize = 0;
    while i < target.len()
        invariant
            i <= target@.len(),
            replaced@.len() == i,
            forall|j: int| 0 <= j < i ==> replaced@[j] == underscored(target@)[j],
        decreases target@.len() - i,
    {
        let ch = target[i];
        if ch == '-' {
            replaced.push('_');
        } else {
            replaced.push(ch);
        }
        i += 1;
    }
    assert(replaced@ =~= underscored(target@));
    let wanted = text_of(&replaced, 0, replaced.len());
    assert(replaced@.subrange(0, replaced@.len() as int) =~= replaced@);
    match get_crate_name(args.as_slice()) {
        Ok(name) => !same_text(wanted.as_str(), name.as_str()),
        Err(_) => true,
    }
}


/// A compiled unit that the build may link: the name under which it is
/// known, and the path of its file.
#[derive(Debug, PartialEq, Eq)]
pub struct ExternFile {
    pub name: String,
    pub path: String,
}

/// An [`ExternFile`] as plain text.
pub struct ExternFileView {
    pub name: Seq<char>,
    pub path: Seq<char>,
}

impl View for ExternFile {
    type V = ExternFileView;

    open spec fn view(&self) -> ExternFileView {
        ExternFileView { name: self.name@, path: self.path@ }
    }
}

/// The files of a list, as plain text.
pub open spec fn files_view(files: Seq<ExternFile>) -> Seq<ExternFileView> {
    files.map_values(|file: ExternFile| file@)
}

/// The unit that an `--extern` value names: what stands before its first
/// `=` is the name, and what stands between that and the next `=`, or the
/// end, is the path.
pub open spec fn extern_named(value: Seq<char>) -> ExternFileView {
    ExternFileView { name: before_first(value, "="@), path: value_of(value) }
}

/// The units that the first `upto` of `values` name.
pub open spec fn externs_named(values: Seq<Seq<char>>, upto: int) -> Seq<ExternFileView>
    decreases upto,
{
    if upto <= 0 {
        Seq::empty()
    } else {
        externs_named(values, upto - 1).push(extern_named(values[upto - 1]))
    }
}

/// Whether each `--extern` of `args` is followed by a value that holds a
/// `=`.
pub open spec fn externs_are_marked(args: Seq<Seq<char>>) -> bool {
    &&& args.len() > 0 ==> args[args.len() - 1] != "--extern"@
    &&& forall|i: int|
        0 <= i < args.len() - 1 && #[trigger] args[i] == "--extern"@ ==> has_match(
            args[i + 1],
            "="@,
        )
}

proof fn externs_hold_marks(args: Seq<Seq<char>>, upto: int)
    requires
        externs_are_marked(args),
        0 <= upto <= args.len(),
    ensures
        forall|k: int|
            0 <= k < externs_upto(args, upto).len() ==> has_match(
                #[trigger] externs_upto(args, upto)[k],
                "="@,
            ),
    decreases upto,
{
    if upto > 0 {
        externs_hold_marks(args, upto - 1);
        let before = externs_upto(args, upto - 1);
        let after = externs_upto(args, upto);
        if args[upto - 1] == "--extern"@ {
            assert(upto - 1 < args.len() - 1);
            assert(has_match(args[upto], "="@));
        }
        assert forall|k: int| 0 <= k < after.len() implies has_match(#[trigger] after[k], "="@) by {
            if k < before.len() {
                assert(after[k] == before[k]);
            }
        }
    }
}

/// The units that the `--extern` arguments name.
pub fn get_externs_from_args(args: &Vec<String>) -> (externs: Vec<ExternFile>)
    requires
        externs_are_marked(strings_view(args@)),
    ensures
        files_view(externs@) == externs_named(
            externs_upto(strings_view(args@), args@.len() as int),
            externs_upto(strings_view(args@), args@.len() as int).len() as int,
        ),
{
    assert(strings_view(args@).len() > 0 ==> strings_view(args@)[args@.len() - 1] == args@[args@.len()
        - 1]@);
    let values = _get_externs(args.as_slice());
    proof {
        externs_hold_marks(strings_view(args@), args@.len() as int);
    }
    let ghost texts = strings_view(values@);
    let mark = chars_of("=");
    let mut externs: Vec<ExternFile> = Vec::new();
    assert(files_view(externs@) =~= externs_named(texts, 0));
    let mut i: usize = 0;
    while i < values.len()
        invariant
            i <= values@.len(),
            texts == strings_view(values@),
            mark@ == "="@,
            forall|k: int| 0 <= k < texts.len() ==> has_match(#[trigger] texts[k], "="@),
            files_view(externs@) == externs_named(texts, i as int),
        decreases values@.len() - i,
    {
        assert(texts[i as int] == values@[i as int]@);
        let chars = chars_of(values[i].as_str());
        let end = match find(&chars, &mark, 0) {
            Some(at) => at,
            None => chars.len(),
        };
        let name = text_of(&chars, 0, end);
        let path = value(&chars);
        let file = ExternFile { name, path };
        let ghost added = file@;
        let ghost before = files_view(externs@);
        externs.push(file);
        assert(files_view(externs@) =~= before.push(added));
        i += 1;
    }
    externs
}

/// Whether the file named `name` is a compiled unit: whether `.rmeta` or
/// `.so` stands in its name.
pub fn is_compiled_lib(name: &str) -> (compiled: bool)
    ensures
        compiled == (has_match(name@, ".rmeta"@) || has_match(name@, ".so"@)),
{
    crate::text::contains(name, ".rmeta") || crate::text::contains(name, ".so")
}

/// The unit that the compiled file `file` of the directory `dir` holds.
pub open spec fn extern_found(dir: Seq<char>, file: Seq<char>) -> ExternFileView {
    ExternFileView { name: unit_name(file)->0, path: dir + "/"@ + file }
}

/// The units that the first `upto` of the compiled files `files` of the
/// directory `dir` hold.
pub open spec fn externs_found(dir: Seq<char>, files: Seq<Seq<char>>, upto: int) -> Seq<
    ExternFileView,
>
    decreases upto,
{
    if upto <= 0 {
        Seq::empty()
    } else {
        externs_found(dir, files, upto - 1).push(extern_found(dir, files[upto - 1]))
    }
}

/// The units that the compiled files `compiled_libs` of the directory
/// `path_dir` hold.
pub fn get_externs_from_fs(path_dir: &str, compiled_libs: &Vec<String>) -> (externs: Vec<ExternFile>)
    requires
        forall|i: int| 0 <= i < compiled_libs@.len() ==> unit_name(compiled_libs@[i]@) is Some,
    ensures
        files_view(externs@) == externs_found(
            path_dir@,
            strings_view(compiled_libs@),
            compiled_libs@.len() as int,
        ),
{
    let dir = chars_of(path_dir);
    let slash = chars_of("/");
    let ghost texts = strings_view(compiled_libs@);
    let mut externs: Vec<ExternFile> = Vec::new();
    assert(files_view(externs@) =~= externs_found(path_dir@, texts, 0));
    let mut i: usize = 0;
    while i < compiled_libs.len()
        invariant
            i <= compiled_libs@.len(),
            texts == strings_view(compiled_libs@),
            dir@ == path_dir@,
            slash@ == "/"@,
            forall|k: int| 0 <= k < compiled_libs@.len() ==> unit_name(compiled_libs@[k]@) is Some,
            files_view(externs@) == externs_found(path_dir@, texts, i as int),
        decreases compiled_libs@.len() - i,
    {
        assert(texts[i as int] == compiled_libs@[i as int]@);
        let name = name_from_path_string(&compiled_libs[i]);
        let file = chars_of(compiled_libs[i].as_str());
        let mut path = text_of(&dir, 0, dir.len());
        assert(dir@.subrange(0, dir@.len() as int) =~= dir@);
        let mut k: usize = 0;
        while k < slash.len()
            invariant
                k <= slash@.len(),
                path@ == dir@ + slash@.subrange(0, k as int),
            decreases slash@.len() - k,
        {
            path.push(slash[k]);
            assert(path@ =~= dir@ + slash@.subrange(0, k + 1));
            k += 1;
        }
        assert(slash@.subrange(0, slash@.len() as int) =~= slash@);
        let mut k: usize = 0;
        while k < file.len()
            invariant
                k <= file@.len(),
                path@ == dir@ + slash@ + file@.subrange(0, k as int),
            decreases file@.len() - k,
        {
            path.push(file[k]);
            assert(path@ =~= dir@ + slash@ + file@.subrange(0, k + 1));
            k += 1;
        }
        assert(file@.subrange(0, file@.len() as int) =~= file@);
        let found = ExternFile { name, path };
        let ghost added = found@;
        let ghost before = files_view(externs@);
        externs.push(found);
        assert(files_view(externs@) =~= before.push(added));
        i += 1;
    }
    externs
}

/// The units that the build may link: the `--extern` arguments are read,
/// so that an ill-formed one is noticed, and the compiled files of the
/// directory of the dependencies are what is handed on.
pub fn get_externs(args: &Vec<String>, compiled_libs: &Vec<String>) -> (externs: Vec<ExternFile>)
    requires
        externs_are_marked(strings_view(args@)),
        values_are_marked(strings_view(args@), "dependency"@),
        values(strings_view(args@), "dependency"@).len() == 1,
        forall|i: int| 0 <= i < compiled_libs@.len() ==> unit_name(compiled_libs@[i]@) is Some,
    ensures
        files_view(externs@) == externs_found(
            values(strings_view(args@), "dependency"@)[0],
            strings_view(compiled_libs@),
            compiled_libs@.len() as int,
        ),
{
    let _ = get_externs_from_args(args);
    let path_dir = get_dep_path(args.as_slice());
    get_externs_from_fs(path_dir.as_str(), compiled_libs)
}

} // verus!
