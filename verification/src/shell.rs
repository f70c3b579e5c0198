//! The Explorer right-click "Force delete with Storage Doctor" entry: the
//! registry values it consists of, the command line it runs, and how that
//! command line is read back when the program starts.
use vstd::prelude::*;
use crate::text::{chars_of, push_str, slice_chars, starts_with, starts_with_chars, string_of};

verus! {

/// Registry key name for the verb.
pub const VERB: &'static str = "StorageDoctorForceDelete";
/// The text Explorer shows for the entry.
pub const LABEL: &'static str = "Force delete with Storage Doctor";
/// The CLI flag Explorer's command line passes back, followed by the path.
pub const FORCE_DELETE_FLAG: &'static str = "--force-delete";
/// The joined form `--force-delete=<path>`.
pub const FORCE_DELETE_FLAG_EQ: &'static str = "--force-delete=";
/// The shell classes the verb attaches to: every file, and every directory.
pub const CLASS_FILES: &'static str = "*";
pub const CLASS_DIRECTORIES: &'static str = "Directory";

/// `Software\Classes\<class>\shell\StorageDoctorForceDelete`.
pub open spec fn verb_key(class: Seq<char>) -> Seq<char> {
    "Software\\Classes\\"@ + class + "\\shell\\"@ + VERB@
}

pub fn verb_key_path(class: &str) -> (r: String)
    ensures
        r@ == verb_key(class@),
{
    let mut s = "Software\\Classes\\".to_owned();
    push_str(&mut s, class);
    push_str(&mut s, "\\shell\\");
    push_str(&mut s, VERB);
    s
}

/// The force-delete target in an argument list: the argument after
/// `--force-delete` (when present and non-empty), or the text after
/// `--force-delete=` (when non-empty), whichever comes first.
pub open spec fn target_from(args: Seq<Seq<char>>, i: int) -> Option<Seq<char>>
    decreases args.len() - i,
{
    if i < 0 || i >= args.len() {
        None
    } else if args[i] == FORCE_DELETE_FLAG@ {
        if i + 1 < args.len() && args[i + 1].len() > 0 {
            Some(args[i + 1])
        } else {
            None
        }
    } else if starts_with(args[i], FORCE_DELETE_FLAG_EQ@) && args[i].len()
        > FORCE_DELETE_FLAG_EQ@.len() {
        Some(args[i].skip(FORCE_DELETE_FLAG_EQ@.len() as int))
    } else {
        target_from(args, i + 1)
    }
}

pub open spec fn views(args: Seq<String>) -> Seq<Seq<char>> {
    args.map_values(|a: String| a@)
}

/// The `--force-delete "<path>"` argument, extracted from a process argv.
pub fn force_delete_target(args: &[String]) -> (r: Option<String>)
    ensures
        r matches Some(p) ==> target_from(views(args@), 0) == Some(p@),
        r is None ==> target_from(views(args@), 0) is None,
{
    let flag = chars_of(FORCE_DELETE_FLAG);
    let flag_eq = chars_of(FORCE_DELETE_FLAG_EQ);
    let mut i: usize = 0;
    while i < args.len()
        invariant
            i <= args@.len(),
            flag@ == FORCE_DELETE_FLAG@,
            flag_eq@ == FORCE_DELETE_FLAG_EQ@,
            target_from(views(args@), i as int) == target_from(views(args@), 0),
        decreases args@.len() - i,
    {
        let arg = chars_of(args[i].as_str());
        proof {
            assert(views(args@)[i as int] == args@[i as int]@);
        }
        if crate::text::eq_chars(&arg, &flag) {
            if i + 1 < args.len() {
                let next = chars_of(args[i + 1].as_str());
                proof {
                    assert(views(args@)[i + 1] == args@[i + 1]@);
                }
                if next.len() > 0 {
                    return Some(string_of(&next));
                }
            }
            return None;
        }
        if starts_with_chars(&arg, &flag_eq) && arg.len() > flag_eq.len() {
            let rest = slice_chars(&arg, flag_eq.len(), arg.len());
            proof {
                assert(rest@ =~= arg@.skip(flag_eq@.len() as int));
            }
            return Some(string_of(&rest));
        }
        i = i + 1;
    }
    None
}

/// `"<exe>" --force-delete "%1"`: the command Explorer runs for the verb,
/// quoted so paths with spaces survive; `%1` is the right-clicked item.
pub open spec fn command_line_spec(exe: Seq<char>) -> Seq<char> {
    "\""@ + exe + "\" "@ + FORCE_DELETE_FLAG@ + " \"%1\""@
}

pub fn command_line(exe: &str) -> (r: String)
    ensures
        r@ == command_line_spec(exe@),
{
    let mut s = "\"".to_owned();
    push_str(&mut s, exe);
    push_str(&mut s, "\" ");
    push_str(&mut s, FORCE_DELETE_FLAG);
    push_str(&mut s, " \"%1\"");
    s
}

/// True only when the verb is registered and points at the executable that
/// is running now; a command left by an earlier install path does not count.
/// `registered` is the command stored under the verb (if any) and
/// `current_exe` the path of the running executable (if known).
pub fn is_registered(registered: Option<&str>, current_exe: Option<&str>) -> (b: bool)
    ensures
        b == (registered is Some && current_exe is Some && registered->0@ == command_line_spec(
            current_exe->0@,
        )),
{
    match (registered, current_exe) {
        (Some(cmd), Some(exe)) => {
            let expected = command_line(exe);
            let a = chars_of(cmd);
            let e = chars_of(expected.as_str());
            crate::text::eq_chars(&a, &e)
        },
        _ => false,
    }
}

/// One registry value to write: a key, a value name (empty for the key's
/// default value) and the string data.
pub struct RegistryValue {
    pub key: String,
    pub name: String,
    pub data: String,
}

pub struct RegistryValueView {
    pub key: Seq<char>,
    pub name: Seq<char>,
    pub data: Seq<char>,
}

impl View for RegistryValue {
    type V = RegistryValueView;

    open spec fn view(&self) -> RegistryValueView {
        RegistryValueView { key: self.key@, name: self.name@, data: self.data@ }
    }
}

/// The three values registered for one class: the entry's label, its icon
/// (this executable's first icon) and the command it runs.
pub open spec fn class_values(class: Seq<char>, exe: Seq<char>) -> Seq<RegistryValueView> {
    seq![
        RegistryValueView { key: verb_key(class), name: Seq::empty(), data: LABEL@ },
        RegistryValueView { key: verb_key(class), name: "Icon"@, data: exe + ",0"@ },
        RegistryValueView {
            key: verb_key(class) + "\\command"@,
            name: Seq::empty(),
            data: command_line_spec(exe),
        },
    ]
}

/// Everything `register` writes, in order: for files, then for folders.
pub open spec fn registration_spec(exe: Seq<char>) -> Seq<RegistryValueView> {
    class_values(CLASS_FILES@, exe) + class_values(CLASS_DIRECTORIES@, exe)
}

fn push_class_values(out: &mut Vec<RegistryValue>, class: &str, exe: &str)
    ensures
        final(out)@.map_values(|v: RegistryValue| v@) == old(out)@.map_values(
            |v: RegistryValue| v@,
        ) + class_values(class@, exe@),
{
    let key = verb_key_path(class);
    let mut icon = exe.to_owned();
    push_str(&mut icon, ",0");
    let mut command_key = verb_key_path(class);
    push_str(&mut command_key, "\\command");
    let ghost before = out@.map_values(|v: RegistryValue| v@);
    out.push(RegistryValue { key: verb_key_path(class), name: String::new(), data: LABEL.to_owned() });
    out.push(RegistryValue { key, name: "Icon".to_owned(), data: icon });
    out.push(RegistryValue { key: command_key, name: String::new(), data: command_line(exe) });
    proof {
        assert(out@.map_values(|v: RegistryValue| v@) =~= before + class_values(class@, exe@));
    }
}

/// The registry values that add the verb for files and folders.
pub fn registration_values(exe: &str) -> (r: Vec<RegistryValue>)
    ensures
        r@.map_values(|v: RegistryValue| v@) == registration_spec(exe@),
{
    let mut out: Vec<RegistryValue> = Vec::new();
    proof {
        assert(out@.map_values(|v: RegistryValue| v@) =~= Seq::<RegistryValueView>::empty());
    }
    push_class_values(&mut out, CLASS_FILES, exe);
    push_class_values(&mut out, CLASS_DIRECTORIES, exe);
    proof {
        assert(Seq::<RegistryValueView>::empty() + class_values(CLASS_FILES@, exe@) =~= class_values(
            CLASS_FILES@,
            exe@,
        ));
    }
    out
}

/// The keys `unregister` deletes: the verb under each class.
pub fn registration_keys() -> (r: Vec<String>)
    ensures
        r@.len() == 2,
        r@[0]@ == verb_key(CLASS_FILES@),
        r@[1]@ == verb_key(CLASS_DIRECTORIES@),
{
    let mut out: Vec<String> = Vec::new();
    out.push(verb_key_path(CLASS_FILES));
    out.push(verb_key_path(CLASS_DIRECTORIES));
    out
}

/// Whether `path` names a regular file (`Path::is_file`); what is on disk
/// decides, so nothing is promised of the answer.
#[verifier::external_body]
pub(crate) fn path_is_file(path: &str) -> bool {
    std::path::Path::new(path).is_file()
}

/// Whether `path` names a directory (`Path::is_dir`); what is on disk
/// decides, so nothing is promised of the answer.
#[verifier::external_body]
pub(crate) fn path_is_dir(path: &str) -> bool {
    std::path::Path::new(path).is_dir()
}

/// Whether what the disk says of a path makes it worth force-deleting: it
/// is a plain file or a directory.
pub fn deletable_given(is_file: bool, is_dir: bool) -> (b: bool)
    ensures
        b == (is_file || is_dir),
{
    is_file || is_dir
}

/// True if `path` is a plain file or directory that exists: the only thing
/// worth force-deleting. The disk is asked whether it is a file and, if
/// not, whether it is a directory; the answer is `deletable_given` for what
/// it says.
pub fn is_deletable_target(path: &str) -> bool {
    let is_file = path_is_file(path);
    let is_dir = if is_file {
        false
    } else {
        path_is_dir(path)
    };
    deletable_given(is_file, is_dir)
}

} // verus!
