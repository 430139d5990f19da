//! What the command line does besides reading and writing files: naming the
//! program, choosing modules to keep, and the text of a listing.
use vstd::prelude::*;

use crate::archive::{Module, trim_end};
use crate::display::{
    CodeFormat, Options, disassemble_obj, lib_text, listable, obj_text, section_words, table_words,
};
use crate::io::Type;
use crate::text::{push_str, string_of, utf8_lossy};

verus! {

/// The file name of a path without its last extension, if it has one.
pub uninterp spec fn file_stem_of(path: Seq<char>) -> Option<Seq<char>>;

/// Relies on std's `Path::file_stem`: the final component of the path without
/// its last extension, or nothing where the path has no file name. A `&str`
/// path is valid UTF-8, and so is every part of it.
#[verifier::external_body]
fn file_stem(path: &str) -> (r: Option<String>)
    ensures
        r is Some <==> file_stem_of(path@) is Some,
        r matches Some(s) ==> s@ == file_stem_of(path@)->Some_0,
{
    std::path::Path::new(path).file_stem().map(|s| s.to_string_lossy().into_owned())
}

/// A string in lower case, by Unicode's rules.
pub uninterp spec fn lower_of(s: Seq<char>) -> Seq<char>;

/// Relies on std's `str::to_lowercase`: the result depends on the characters
/// alone.
#[verifier::external_body]
fn to_lowercase(s: &str) -> (r: String)
    ensures
        r@ == lower_of(s@),
{
    s.to_lowercase()
}

/// The name the program goes by: the file stem of the path it was started as,
/// in lower case, or `psyk` where there is none.
pub fn stem_or_psyk(path: Option<String>) -> (r: String)
    ensures
        path is Some && file_stem_of(path->Some_0@) is Some ==> r@ == lower_of(
            file_stem_of(path->Some_0@)->Some_0,
        ),
        !(path is Some && file_stem_of(path->Some_0@) is Some) ==> r@ == "psyk"@,
{
    if let Some(p) = path {
        if let Some(stem) = file_stem(p.as_str()) {
            return to_lowercase(stem.as_str());
        }
    }
    let mut out: Vec<char> = Vec::new();
    push_str(&mut out, "psyk");
    string_of(out)
}

/// The name is one of `names`.
pub open spec fn named_in(name: Seq<char>, names: Seq<String>) -> bool {
    exists|i: int| 0 <= i < names.len() && names[i]@ == name
}

/// The modules whose names are not among `names`, in their order.
pub open spec fn kept_modules(s: Seq<Module>, names: Seq<String>) -> Seq<Module>
    decreases s.len(),
{
    if s.len() == 0 {
        Seq::empty()
    } else if named_in(utf8_lossy(trim_end(s.last().metadata.name@)), names) {
        kept_modules(s.drop_last(), names)
    } else {
        kept_modules(s.drop_last(), names).push(s.last())
    }
}

fn is_named_in(name: &String, names: &Vec<String>) -> (r: bool)
    ensures
        r == named_in(name@, names@),
{
    let mut i: usize = 0;
    while i < names.len()
        invariant
            i <= names@.len(),
            forall|j: int| 0 <= j < i ==> names@[j]@ != name@,
        decreases names@.len() - i,
    {
        if names[i].eq(name) {
            return true;
        }
        i = i + 1;
    }
    false
}

/// The modules to keep when those named in `names` are deleted.
pub fn without_modules(modules: Vec<Module>, names: &Vec<String>) -> (r: Vec<Module>)
    ensures
        r@ == kept_modules(modules@, names@),
{
    let ghost all = modules@;
    let mut rest = modules;
    let total = rest.len();
    let mut r: Vec<Module> = Vec::new();
    let mut k: usize = 0;
    while rest.len() > 0
        invariant
            k <= all.len(),
            all.len() == total,
            rest@.len() == all.len() - k,
            rest@ == all.skip(k as int),
            r@ == kept_modules(all.take(k as int), names@),
        decreases rest@.len(),
    {
        let m = rest.remove(0);
        proof {
            assert(m == all[k as int]);
            assert(all.take(k + 1).drop_last() =~= all.take(k as int));
            assert(rest@ =~= all.skip(k + 1));
        }
        let name = m.name();
        if !is_named_in(&name, names) {
            r.push(m);
        }
        k = k + 1;
    }
    assert(all.take(k as int) =~= all);
    r
}

/// The file stem of a path, as `update` matches it against module names.
pub fn path_stem(path: &str) -> (r: Option<String>)
    ensures
        r is Some <==> file_stem_of(path@) is Some,
        r matches Some(s) ==> s@ == file_stem_of(path@)->Some_0,
{
    file_stem(path)
}

/// The file that replaces a module named `name`: the last of the files whose
/// stem is that name, if any.
pub open spec fn chosen_file(name: Seq<char>, stems: Seq<String>) -> Option<int>
    decreases stems.len(),
{
    if stems.len() == 0 {
        None
    } else if stems.last()@ == name {
        Some(stems.len() - 1)
    } else {
        chosen_file(name, stems.drop_last())
    }
}

/// For each module, the index of the file that replaces it.
pub fn replacement_files(modules: &Vec<Module>, stems: &Vec<String>) -> (r: Vec<Option<usize>>)
    ensures
        r@.len() == modules@.len(),
        forall|i: int|
            0 <= i < r@.len() ==> (#[trigger] r@[i] matches Some(k) ==> chosen_file(
                utf8_lossy(trim_end(modules@[i].metadata.name@)),
                stems@,
            ) == Some(k as int)) && (r@[i] is None ==> chosen_file(
                utf8_lossy(trim_end(modules@[i].metadata.name@)),
                stems@,
            ) is None),
{
    let mut r: Vec<Option<usize>> = Vec::new();
    let mut i: usize = 0;
    while i < modules.len()
        invariant
            i <= modules@.len(),
            r@.len() == i,
            forall|j: int|
                0 <= j < i ==> (#[trigger] r@[j] matches Some(k) ==> chosen_file(
                    utf8_lossy(trim_end(modules@[j].metadata.name@)),
                    stems@,
                ) == Some(k as int)) && (r@[j] is None ==> chosen_file(
                    utf8_lossy(trim_end(modules@[j].metadata.name@)),
                    stems@,
                ) is None),
        decreases modules@.len() - i,
    {
        let name = modules[i].name();
        let mut k: usize = stems.len();
        let mut found: Option<usize> = None;
        assert(stems@.take(k as int) =~= stems@);
        while k > 0
            invariant
                k <= stems@.len(),
                found is None ==> chosen_file(name@, stems@) == chosen_file(
                    name@,
                    stems@.take(k as int),
                ),
                found matches Some(f) ==> chosen_file(name@, stems@) == Some(f as int),
            decreases k,
        {
            if found.is_none() {
                proof {
                    assert(stems@.take(k as int).drop_last() =~= stems@.take(k - 1));
                }
                if stems[k - 1].eq(&name) {
                    found = Some(k - 1);
                }
            }
            k = k - 1;
        }
        proof {
            if found is None {
                assert(stems@.take(0) =~= Seq::<String>::empty());
            }
        }
        r.push(found);
        i = i + 1;
    }
    r
}

/// A module after an update: the module read from its replacement file, or
/// the module as it was where there is none or it could not be read.
pub open spec fn updated(m: Module, loaded: Option<Module>) -> Module {
    match loaded {
        Some(n) => n,
        None => m,
    }
}

/// The modules after an update, given for each module what was read from the
/// file that replaces it.
pub fn updated_modules(modules: Vec<Module>, loaded: Vec<Option<Module>>) -> (r: Vec<Module>)
    requires
        loaded@.len() == modules@.len(),
    ensures
        r@.len() == modules@.len(),
        forall|i: int| 0 <= i < r@.len() ==> #[trigger] r@[i] == updated(modules@[i], loaded@[i]),
{
    let ghost all = modules@;
    let ghost all_loaded = loaded@;
    let mut rest = modules;
    let mut rest_loaded = loaded;
    let total = rest.len();
    let mut r: Vec<Module> = Vec::new();
    let mut k: usize = 0;
    while rest.len() > 0
        invariant
            all.len() == total,
            all_loaded.len() == total,
            k <= total,
            rest@.len() == total - k,
            rest_loaded@.len() == total - k,
            rest@ == all.skip(k as int),
            rest_loaded@ == all_loaded.skip(k as int),
            r@.len() == k,
            forall|i: int| 0 <= i < k ==> #[trigger] r@[i] == updated(all[i], all_loaded[i]),
        decreases rest@.len(),
    {
        let m = rest.remove(0);
        let l = rest_loaded.remove(0);
        proof {
            assert(m == all[k as int]);
            assert(l == all_loaded[k as int]);
            assert(rest@ =~= all.skip(k + 1));
            assert(rest_loaded@ =~= all_loaded.skip(k + 1));
        }
        match l {
            Some(n) => r.push(n),
            None => r.push(m),
        }
        k = k + 1;
    }
    r
}

/// The options a listing is asked for with: hexadecimal code, disassembled
/// code (which wins over hexadecimal), the object files of an archive's
/// modules, British spelling.
pub open spec fn listing_options(code: bool, disassembly: bool, recursive: bool, uk: bool) -> Options {
    Options {
        code_format: if disassembly {
            CodeFormat::Disassembly
        } else if code {
            CodeFormat::Hex
        } else {
            CodeFormat::NoCode
        },
        recursive,
        indent_level: 0,
        uk_spelling: uk,
    }
}

/// A file can be listed: each module of an archive has a creation time that
/// exists.
pub open spec fn file_listable(f: Type) -> bool {
    match f {
        Type::LIB(l) => forall|i: int| 0 <= i < l.objs@.len() ==> listable(#[trigger] l.objs@[i]),
        Type::OBJ(_) => true,
    }
}

/// The text the `info` command prints for a file: its listing and a line
/// break, instructions shown with the text `texts` gives their words.
pub fn info(
    file: &Type,
    code: bool,
    disassembly: bool,
    recursive: bool,
    uk: bool,
    texts: &Vec<(u32, String)>,
) -> (r: String)
    requires
        file_listable(*file),
    ensures
        r@ == match *file {
            Type::LIB(l) => lib_text(l, listing_options(code, disassembly, recursive, uk), texts@),
            Type::OBJ(o) => obj_text(o, listing_options(code, disassembly, recursive, uk), texts@),
        } + "\n"@,
{
    let options = Options {
        code_format: if disassembly {
            CodeFormat::Disassembly
        } else if code {
            CodeFormat::Hex
        } else {
            CodeFormat::NoCode
        },
        recursive,
        indent_level: 0,
        uk_spelling: uk,
    };
    let mut out: Vec<char> = Vec::new();
    match file {
        Type::LIB(l) => crate::display::push_lib(&mut out, l, &options, texts),
        Type::OBJ(o) => crate::display::push_obj(&mut out, o, &options, texts),
    }
    push_str(&mut out, "\n");
    string_of(out)
}

/// The words of the code records of every module, in order.
pub open spec fn modules_words(s: Seq<Module>) -> Seq<u32>
    decreases s.len(),
{
    if s.len() == 0 {
        Seq::empty()
    } else {
        modules_words(s.drop_last()) + section_words(s.last().obj.sections@)
    }
}

/// The words of the code records of a file, in order.
pub open spec fn file_words(f: Type) -> Seq<u32> {
    match f {
        Type::LIB(l) => modules_words(l.objs@),
        Type::OBJ(o) => section_words(o.sections@),
    }
}

/// The text rabbitizer gives each word of the code records of a file, for a
/// listing with disassembly: an entry for each word, in order. The words are
/// stated; of their texts nothing is.
pub fn disassembly_table(file: &Type) -> (r: Vec<(u32, String)>)
    ensures
        table_words(r@) == file_words(*file),
{
    let mut table: Vec<(u32, String)> = Vec::new();
    assert(table_words(table@) =~= Seq::<u32>::empty());
    match file {
        Type::OBJ(o) => {
            disassemble_obj(o, &mut table);
            assert(table_words(table@) =~= file_words(*file));
        },
        Type::LIB(l) => {
            let mut i: usize = 0;
            while i < l.objs.len()
                invariant
                    i <= l.objs@.len(),
                    table_words(table@) == modules_words(l.objs@.take(i as int)),
                decreases l.objs@.len() - i,
            {
                proof {
                    assert(l.objs@.take(i + 1).drop_last() =~= l.objs@.take(i as int));
                }
                disassemble_obj(&l.objs[i].obj, &mut table);
                i = i + 1;
            }
            assert(l.objs@.take(l.objs@.len() as int) =~= l.objs@);
        },
    }
    table
}

} // verus!
