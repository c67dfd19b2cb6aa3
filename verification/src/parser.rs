//! Reading a Python test file: which tests and fixtures it defines, and
//! what each of them does, found by walking its syntax tree.
use vstd::prelude::*;
use crate::syntax::{SyntaxTree, children, end, field_child, field_child_exec, in_subtree, kind, kind_is, lemma_child_nested, lemma_subtree_nested, text, wf};
use crate::text::{
    chars_of, contains, first_occurrence, find, occurs_at, is_space, is_space_exec, last_occurrence, lowercase, rfind, slice_chars,
    split, split_exec, starts_with, str_contains, str_contains_any, str_eq, str_in, str_starts_with, string_of,
    string_of_all, str_trim, to_lowercase, trim, trim_bounds, trim_exec, trim_start, is_uppercase, uppercase_char,
};
use crate::treesitter::{new_parser, parser_ready, python_nodes, NodeRecord};
use crate::text::{stable_hash, text_hash_of};
use crate::models::{AssertionInfo, Fixture, FixtureScope, ParsedModule, SleepLiteral, TestFunction};
use crate::numeric::{LiteralClass, literal_class, literal_class_exec};

verus! {

/// A parser for Python test files.
pub struct PythonParser {
    parser: tree_sitter::Parser,
}

/// The function names that read or write files.
pub open spec fn io_names() -> Seq<Seq<char>> {
    seq![
        "open"@,
        "read"@,
        "write"@,
    ]
}

fn io_names_list() -> (r: Vec<&'static str>)
    ensures
        r@.map_values(|s: &'static str| s@) == io_names(),
{
    let r = vec![
        "open",
        "read",
        "write",
    ];
    assert(r@.map_values(|s: &'static str| s@) =~= io_names());
    r
}

/// The method names that read or write files.
pub open spec fn io_attrs() -> Seq<Seq<char>> {
    seq![
        "read"@,
        "write"@,
        "open"@,
    ]
}

fn io_attrs_list() -> (r: Vec<&'static str>)
    ensures
        r@.map_values(|s: &'static str| s@) == io_attrs(),
{
    let r = vec![
        "read",
        "write",
        "open",
    ];
    assert(r@.map_values(|s: &'static str| s@) =~= io_attrs());
    r
}

/// The calls that read or change the working directory.
pub open spec fn cwd_calls() -> Seq<Seq<char>> {
    seq![
        "os.getcwd"@,
        "os.chdir"@,
        "Path.cwd"@,
    ]
}

fn cwd_calls_list() -> (r: Vec<&'static str>)
    ensures
        r@.map_values(|s: &'static str| s@) == cwd_calls(),
{
    let r = vec![
        "os.getcwd",
        "os.chdir",
        "Path.cwd",
    ];
    assert(r@.map_values(|s: &'static str| s@) =~= cwd_calls());
    r
}

/// The network libraries whose calls mark network use.
pub open spec fn network_libs() -> Seq<Seq<char>> {
    seq![
        "requests"@,
        "socket"@,
        "httpx"@,
        "aiohttp"@,
        "urllib"@,
    ]
}

fn network_libs_list() -> (r: Vec<&'static str>)
    ensures
        r@.map_values(|s: &'static str| s@) == network_libs(),
{
    let r = vec![
        "requests",
        "socket",
        "httpx",
        "aiohttp",
        "urllib",
    ];
    assert(r@.map_values(|s: &'static str| s@) =~= network_libs());
    r
}

/// The functions of `random` that draw random values.
pub open spec fn random_functions() -> Seq<Seq<char>> {
    seq![
        "random.random"@,
        "random.randint"@,
        "random.choice"@,
        "random.shuffle"@,
        "random.uniform"@,
        "random.randrange"@,
        "random.sample"@,
        "random.gauss"@,
        "random.normalvariate"@,
    ]
}

fn random_functions_list() -> (r: Vec<&'static str>)
    ensures
        r@.map_values(|s: &'static str| s@) == random_functions(),
{
    let r = vec![
        "random.random",
        "random.randint",
        "random.choice",
        "random.shuffle",
        "random.uniform",
        "random.randrange",
        "random.sample",
        "random.gauss",
        "random.normalvariate",
    ];
    assert(r@.map_values(|s: &'static str| s@) =~= random_functions());
    r
}

/// The functions of `subprocess` that run a process.
pub open spec fn subprocess_functions() -> Seq<Seq<char>> {
    seq![
        "subprocess.Popen"@,
        "subprocess.run"@,
        "subprocess.call"@,
        "subprocess.check_output"@,
        "subprocess.check_call"@,
    ]
}

fn subprocess_functions_list() -> (r: Vec<&'static str>)
    ensures
        r@.map_values(|s: &'static str| s@) == subprocess_functions(),
{
    let r = vec![
        "subprocess.Popen",
        "subprocess.run",
        "subprocess.call",
        "subprocess.check_output",
        "subprocess.check_call",
    ];
    assert(r@.map_values(|s: &'static str| s@) =~= subprocess_functions());
    r
}

/// The constructors whose results cannot be changed in place.
pub open spec fn immutable_constructors() -> Seq<Seq<char>> {
    seq![
        "int"@,
        "str"@,
        "float"@,
        "bool"@,
        "bytes"@,
        "complex"@,
        "tuple"@,
        "frozenset"@,
        "NoneType"@,
        "Path"@,
        "PurePath"@,
        "PurePosixPath"@,
        "PureWindowsPath"@,
        "Decimal"@,
        "date"@,
        "datetime"@,
        "time"@,
        "timedelta"@,
        "UUID"@,
        "ipaddress"@,
        "IPv4Address"@,
        "IPv6Address"@,
        "re.compile"@,
        "enum"@,
    ]
}

fn immutable_constructors_list() -> (r: Vec<&'static str>)
    ensures
        r@.map_values(|s: &'static str| s@) == immutable_constructors(),
{
    let r = vec![
        "int",
        "str",
        "float",
        "bool",
        "bytes",
        "complex",
        "tuple",
        "frozenset",
        "NoneType",
        "Path",
        "PurePath",
        "PurePosixPath",
        "PureWindowsPath",
        "Decimal",
        "date",
        "datetime",
        "time",
        "timedelta",
        "UUID",
        "ipaddress",
        "IPv4Address",
        "IPv6Address",
        "re.compile",
        "enum",
    ];
    assert(r@.map_values(|s: &'static str| s@) =~= immutable_constructors());
    r
}

/// The constructors whose results can be changed in place.
pub open spec fn mutable_constructors() -> Seq<Seq<char>> {
    seq![
        "list"@,
        "dict"@,
        "set"@,
        "bytearray"@,
        "deque"@,
        "defaultdict"@,
        "Counter"@,
        "OrderedDict"@,
    ]
}

fn mutable_constructors_list() -> (r: Vec<&'static str>)
    ensures
        r@.map_values(|s: &'static str| s@) == mutable_constructors(),
{
    let r = vec![
        "list",
        "dict",
        "set",
        "bytearray",
        "deque",
        "defaultdict",
        "Counter",
        "OrderedDict",
    ];
    assert(r@.map_values(|s: &'static str| s@) =~= mutable_constructors());
    r
}

/// The methods that change a collection in place.
pub open spec fn mutating_methods() -> Seq<Seq<char>> {
    seq![
        "append"@,
        "extend"@,
        "remove"@,
        "pop"@,
        "clear"@,
        "update"@,
        "insert"@,
        "add"@,
        "discard"@,
    ]
}

fn mutating_methods_list() -> (r: Vec<&'static str>)
    ensures
        r@.map_values(|s: &'static str| s@) == mutating_methods(),
{
    let r = vec![
        "append",
        "extend",
        "remove",
        "pop",
        "clear",
        "update",
        "insert",
        "add",
        "discard",
    ];
    assert(r@.map_values(|s: &'static str| s@) =~= mutating_methods());
    r
}

/// The standard-library modules whose patching marks a test as mocking the standard library.
pub open spec fn stdlib_modules() -> Seq<Seq<char>> {
    seq![
        "subprocess"@,
        "os"@,
        "os.path"@,
        "sys"@,
        "socket"@,
        "http.client"@,
        "http.server"@,
        "builtins"@,
        "io"@,
        "pathlib"@,
        "json"@,
        "csv"@,
        "re"@,
        "time"@,
        "datetime"@,
        "shutil"@,
        "tempfile"@,
        "glob"@,
        "logging"@,
        "warnings"@,
        "threading"@,
        "multiprocessing"@,
        "asyncio"@,
    ]
}

fn stdlib_modules_list() -> (r: Vec<&'static str>)
    ensures
        r@.map_values(|s: &'static str| s@) == stdlib_modules(),
{
    let r = vec![
        "subprocess",
        "os",
        "os.path",
        "sys",
        "socket",
        "http.client",
        "http.server",
        "builtins",
        "io",
        "pathlib",
        "json",
        "csv",
        "re",
        "time",
        "datetime",
        "shutil",
        "tempfile",
        "glob",
        "logging",
        "warnings",
        "threading",
        "multiprocessing",
        "asyncio",
    ];
    assert(r@.map_values(|s: &'static str| s@) =~= stdlib_modules());
    r
}

/// The texts that count as one mock operation each.
pub open spec fn mock_keywords() -> Seq<Seq<char>> {
    seq![
        "Mock("@,
        "MagicMock("@,
        "AsyncMock("@,
        "patch("@,
        ".return_value"@,
        ".side_effect"@,
        ".assert_called"@,
        ".called"@,
        ".call_count"@,
        ".assert_called_once"@,
        ".assert_called_with"@,
        ".assert_not_called"@,
    ]
}

fn mock_keywords_list() -> (r: Vec<&'static str>)
    ensures
        r@.map_values(|s: &'static str| s@) == mock_keywords(),
{
    let r = vec![
        "Mock(",
        "MagicMock(",
        "AsyncMock(",
        "patch(",
        ".return_value",
        ".side_effect",
        ".assert_called",
        ".called",
        ".call_count",
        ".assert_called_once",
        ".assert_called_with",
        ".assert_not_called",
    ];
    assert(r@.map_values(|s: &'static str| s@) =~= mock_keywords());
    r
}

/// The texts that show a fixture cleaning up after itself.
pub open spec fn cleanup_texts() -> Seq<Seq<char>> {
    seq![
        ".close()"@,
        ".teardown_"@,
        "env_reset"@,
        ".restore()"@,
        ".cleanup()"@,
        ".remove()"@,
        ".unlink()"@,
    ]
}

fn cleanup_texts_list() -> (r: Vec<&'static str>)
    ensures
        r@.map_values(|s: &'static str| s@) == cleanup_texts(),
{
    let r = vec![
        ".close()",
        ".teardown_",
        "env_reset",
        ".restore()",
        ".cleanup()",
        ".remove()",
        ".unlink()",
    ];
    assert(r@.map_values(|s: &'static str| s@) =~= cleanup_texts());
    r
}

/// The `shutil` calls that copy or move files.
pub open spec fn shutil_moves() -> Seq<Seq<char>> {
    seq![
        "shutil.copy("@,
        "shutil.copy2("@,
        "shutil.copyfile("@,
        "shutil.copytree("@,
        "shutil.move("@,
    ]
}

fn shutil_moves_list() -> (r: Vec<&'static str>)
    ensures
        r@.map_values(|s: &'static str| s@) == shutil_moves(),
{
    let r = vec![
        "shutil.copy(",
        "shutil.copy2(",
        "shutil.copyfile(",
        "shutil.copytree(",
        "shutil.move(",
    ];
    assert(r@.map_values(|s: &'static str| s@) =~= shutil_moves());
    r
}

/// The texts that show a mock being verified.
pub open spec fn verification_texts() -> Seq<Seq<char>> {
    seq![
        ".assert_called"@,
        ".called"@,
        ".call_count"@,
    ]
}

fn verification_texts_list() -> (r: Vec<&'static str>)
    ensures
        r@.map_values(|s: &'static str| s@) == verification_texts(),
{
    let r = vec![
        ".assert_called",
        ".called",
        ".call_count",
    ];
    assert(r@.map_values(|s: &'static str| s@) =~= verification_texts());
    r
}

/// The function child of node `j` when `j` is a call.
pub open spec fn call_function(t: SyntaxTree, j: int) -> Option<int> {
    if kind(t, j) == "call"@ {
        field_child(t, j, "function"@)
    } else {
        None
    }
}

fn call_function_exec(t: &SyntaxTree, j: usize) -> (r: Option<usize>)
    requires
        wf(*t),
        j < t.nodes@.len(),
    ensures
        r is None <==> call_function(*t, j as int) is None,
        r matches Some(f) ==> call_function(*t, j as int) == Some(f as int),
        r matches Some(f) ==> j < f < end(*t, j as int) && end(*t, f as int) <= end(*t, j as int),
{
    if kind_is(t, j, "call") {
        field_child_exec(t, j, "function")
    } else {
        None
    }
}

/// Whether the text of node `i` is `s`.
fn text_is(t: &SyntaxTree, i: usize, s: &str) -> (r: bool)
    requires
        i < t.nodes@.len(),
    ensures
        r == (text(*t, i as int) == s@),
{
    str_eq(t.nodes[i].text.as_str(), s)
}

/// Whether the field child `f` of node `i` exists and has the text `s`.
pub open spec fn field_text_is(t: SyntaxTree, i: int, f: Seq<char>, s: Seq<char>) -> bool {
    match field_child(t, i, f) {
        Some(c) => text(t, c) == s,
        None => false,
    }
}

fn field_text_is_exec(t: &SyntaxTree, i: usize, f: &str, s: &str) -> (r: bool)
    requires
        wf(*t),
        i < t.nodes@.len(),
    ensures
        r == field_text_is(*t, i as int, f@, s@),
{
    match field_child_exec(t, i, f) {
        Some(c) => text_is(t, c, s),
        None => false,
    }
}

/// A sleep function: `time.sleep`, `sleep`, or any attribute named `sleep`.
pub open spec fn sleep_function(t: SyntaxTree, f: int) -> bool {
    text(t, f) == "time.sleep"@ || text(t, f) == "sleep"@ || (kind(t, f) == "attribute"@ && field_text_is(
        t,
        f,
        "attribute"@,
        "sleep"@,
    ))
}

fn sleep_function_exec(t: &SyntaxTree, f: usize) -> (r: bool)
    requires
        wf(*t),
        f < t.nodes@.len(),
    ensures
        r == sleep_function(*t, f as int),
{
    text_is(t, f, "time.sleep") || text_is(t, f, "sleep") || (kind_is(t, f, "attribute") && field_text_is_exec(
        t,
        f,
        "attribute",
        "sleep",
    ))
}

/// Node `j` is a call of a sleep function.
pub open spec fn sleep_call_at(t: SyntaxTree, j: int) -> bool {
    match call_function(t, j) {
        Some(f) => sleep_function(t, f),
        None => false,
    }
}

fn is_sleep_call(t: &SyntaxTree, j: usize) -> (r: bool)
    requires
        wf(*t),
        j < t.nodes@.len(),
    ensures
        r == sleep_call_at(*t, j as int),
{
    match call_function_exec(t, j) {
        Some(f) => sleep_function_exec(t, f),
        None => false,
    }
}

/// Node `j` is a call that reads or writes a file.
pub open spec fn file_io_at(t: SyntaxTree, j: int) -> bool {
    match call_function(t, j) {
        Some(f) => io_names().contains(text(t, f)) || (kind(t, f) == "attribute"@ && match field_child(t, f, "attribute"@) {
            Some(a) => io_attrs().contains(text(t, a)),
            None => false,
        }),
        None => false,
    }
}

fn file_io_at_exec(t: &SyntaxTree, j: usize) -> (r: bool)
    requires
        wf(*t),
        j < t.nodes@.len(),
    ensures
        r == file_io_at(*t, j as int),
{
    match call_function_exec(t, j) {
        Some(f) => {
            if str_in(t.nodes[f].text.as_str(), &io_names_list()) {
                return true;
            }
            if kind_is(t, f, "attribute") {
                match field_child_exec(t, f, "attribute") {
                    Some(a) => str_in(t.nodes[a].text.as_str(), &io_attrs_list()),
                    None => false,
                }
            } else {
                false
            }
        },
        None => false,
    }
}

/// Node `j` is a call that reads or changes the working directory.
pub open spec fn cwd_at(t: SyntaxTree, j: int) -> bool {
    match call_function(t, j) {
        Some(f) => cwd_calls().contains(text(t, f)) || contains(text(t, f), "getcwd"@) || contains(
            text(t, f),
            "chdir"@,
        ) || (kind(t, f) == "attribute"@ && (field_text_is(t, f, "attribute"@, "getcwd"@) || field_text_is(
            t,
            f,
            "attribute"@,
            "chdir"@,
        ))),
        None => false,
    }
}

fn is_cwd_call_node(t: &SyntaxTree, j: usize) -> (r: bool)
    requires
        wf(*t),
        j < t.nodes@.len(),
    ensures
        r == cwd_at(*t, j as int),
{
    match call_function_exec(t, j) {
        Some(f) => {
            let ft = t.nodes[f].text.as_str();
            str_in(ft, &cwd_calls_list()) || str_contains(ft, "getcwd") || str_contains(ft, "chdir") || (kind_is(
                t,
                f,
                "attribute",
            ) && (field_text_is_exec(t, f, "attribute", "getcwd") || field_text_is_exec(t, f, "attribute", "chdir")))
        },
        None => false,
    }
}

/// Node `j` is a call of `pytest.raises`.
pub open spec fn raises_at(t: SyntaxTree, j: int) -> bool {
    match call_function(t, j) {
        Some(f) => kind(t, f) == "attribute"@ && (text(t, f) == "pytest.raises"@ || (field_child(
            t,
            f,
            "object"@,
        ) is Some && field_text_is(t, f, "attribute"@, "raises"@) && field_text_is(t, f, "object"@, "pytest"@))),
        None => false,
    }
}

fn raises_at_exec(t: &SyntaxTree, j: usize) -> (r: bool)
    requires
        wf(*t),
        j < t.nodes@.len(),
    ensures
        r == raises_at(*t, j as int),
{
    match call_function_exec(t, j) {
        Some(f) => kind_is(t, f, "attribute") && (text_is(t, f, "pytest.raises") || (field_child_exec(
            t,
            f,
            "object",
        ).is_some() && field_text_is_exec(t, f, "attribute", "raises") && field_text_is_exec(t, f, "object", "pytest"))),
        None => false,
    }
}

/// `s` starts with one of the network libraries followed by `.` or ` (`.
pub open spec fn names_network_lib(s: Seq<char>) -> bool {
    exists|k: int|
        0 <= k < network_libs().len() && (starts_with(s, #[trigger] network_libs()[k] + "."@) || starts_with(
            s,
            network_libs()[k] + " ("@,
        ))
}

fn names_network_lib_exec(s: &str) -> (r: bool)
    ensures
        r == names_network_lib(s@),
{
    let libs = network_libs_list();
    let ghost ls = libs@.map_values(|x: &'static str| x@);
    let mut k: usize = 0;
    while k < libs.len()
        invariant
            k <= libs@.len(),
            ls == libs@.map_values(|x: &'static str| x@),
            ls == network_libs(),
            forall|m: int| 0 <= m < k ==> !(starts_with(s@, #[trigger] ls[m] + "."@) || starts_with(s@, ls[m] + " ("@)),
        decreases libs.len() - k,
    {
        let mut dot = String::from_str(libs[k]);
        dot.append(".");
        let mut paren = String::from_str(libs[k]);
        paren.append(" (");
        assert(ls[k as int] == libs@[k as int]@);
        if str_starts_with(s, dot.as_str()) || str_starts_with(s, paren.as_str()) {
            return true;
        }
        k = k + 1;
    }
    false
}

/// Node `j` is a call into a network library.
pub open spec fn network_at(t: SyntaxTree, j: int) -> bool {
    match call_function(t, j) {
        Some(f) => names_network_lib(text(t, f)) || match field_child(t, f, "object"@) {
            Some(o) => network_libs().contains(text(t, o)),
            None => false,
        },
        None => false,
    }
}

fn is_network_call_node(t: &SyntaxTree, j: usize) -> (r: bool)
    requires
        wf(*t),
        j < t.nodes@.len(),
    ensures
        r == network_at(*t, j as int),
{
    match call_function_exec(t, j) {
        Some(f) => {
            if names_network_lib_exec(t.nodes[f].text.as_str()) {
                return true;
            }
            match field_child_exec(t, f, "object") {
                Some(o) => str_in(t.nodes[o].text.as_str(), &network_libs_list()),
                None => false,
            }
        },
        None => false,
    }
}

/// Node `j` is a database call of `method`: a call whose function's text,
/// lower-cased, contains it (or an attribute call named it), or a name that
/// is it, in any case.
pub open spec fn db_call_at(t: SyntaxTree, j: int, method: Seq<char>) -> bool {
    if kind(t, j) == "call"@ {
        match field_child(t, j, "function"@) {
            Some(f) => contains(lowercase(text(t, f)), method) || (kind(t, f) == "attribute"@ && match field_child(
                t,
                f,
                "attribute"@,
            ) {
                Some(a) => lowercase(text(t, a)) == method,
                None => false,
            }),
            None => false,
        }
    } else if kind(t, j) == "identifier"@ {
        lowercase(text(t, j)) == method
    } else {
        false
    }
}

fn is_db_call_node(t: &SyntaxTree, j: usize, method: &str) -> (r: bool)
    requires
        wf(*t),
        j < t.nodes@.len(),
    ensures
        r == db_call_at(*t, j as int, method@),
{
    if kind_is(t, j, "call") {
        match field_child_exec(t, j, "function") {
            Some(f) => {
                let low = to_lowercase(t.nodes[f].text.as_str());
                if str_contains(low.as_str(), method) {
                    return true;
                }
                if kind_is(t, f, "attribute") {
                    match field_child_exec(t, f, "attribute") {
                        Some(a) => {
                            let la = to_lowercase(t.nodes[a].text.as_str());
                            str_eq(la.as_str(), method)
                        },
                        None => false,
                    }
                } else {
                    false
                }
            },
            None => false,
        }
    } else if kind_is(t, j, "identifier") {
        let low = to_lowercase(t.nodes[j].text.as_str());
        str_eq(low.as_str(), method)
    } else {
        false
    }
}

/// Node `j` is a call that draws a random value.
pub open spec fn random_at(t: SyntaxTree, j: int) -> bool {
    match call_function(t, j) {
        Some(f) => random_functions().contains(text(t, f)) || field_text_is(t, f, "object"@, "random"@),
        None => false,
    }
}

fn is_random_call_node(t: &SyntaxTree, j: usize) -> (r: bool)
    requires
        wf(*t),
        j < t.nodes@.len(),
    ensures
        r == random_at(*t, j as int),
{
    match call_function_exec(t, j) {
        Some(f) => str_in(t.nodes[f].text.as_str(), &random_functions_list()) || field_text_is_exec(
            t,
            f,
            "object",
            "random",
        ),
        None => false,
    }
}

/// Node `j` is a call of `random.seed`.
pub open spec fn random_seed_at(t: SyntaxTree, j: int) -> bool {
    match call_function(t, j) {
        Some(f) => text(t, f) == "random.seed"@ || (kind(t, f) == "attribute"@ && field_text_is(
            t,
            f,
            "attribute"@,
            "seed"@,
        ) && field_text_is(t, f, "object"@, "random"@)),
        None => false,
    }
}

fn is_random_seed_call_node(t: &SyntaxTree, j: usize) -> (r: bool)
    requires
        wf(*t),
        j < t.nodes@.len(),
    ensures
        r == random_seed_at(*t, j as int),
{
    match call_function_exec(t, j) {
        Some(f) => text_is(t, f, "random.seed") || (kind_is(t, f, "attribute") && field_text_is_exec(
            t,
            f,
            "attribute",
            "seed",
        ) && field_text_is_exec(t, f, "object", "random")),
        None => false,
    }
}

/// Node `j` is a call that runs a process.
pub open spec fn subprocess_at(t: SyntaxTree, j: int) -> bool {
    match call_function(t, j) {
        Some(f) => subprocess_functions().contains(text(t, f)) || field_text_is(t, f, "object"@, "subprocess"@),
        None => false,
    }
}

fn is_subprocess_call_node(t: &SyntaxTree, j: usize) -> (r: bool)
    requires
        wf(*t),
        j < t.nodes@.len(),
    ensures
        r == subprocess_at(*t, j as int),
{
    match call_function_exec(t, j) {
        Some(f) => str_in(t.nodes[f].text.as_str(), &subprocess_functions_list()) || field_text_is_exec(
            t,
            f,
            "object",
            "subprocess",
        ),
        None => false,
    }
}

/// Node `c` is the keyword argument `timeout=...`.
pub open spec fn timeout_kwarg_at(t: SyntaxTree, c: int) -> bool {
    kind(t, c) == "keyword_argument"@ && field_text_is(t, c, "name"@, "timeout"@)
}

/// Some child of the argument list `a` is the keyword argument `timeout=...`.
pub open spec fn args_have_timeout(t: SyntaxTree, a: int) -> bool {
    exists|k: int| 0 <= k < children(t, a).len() && #[trigger] timeout_kwarg_at(t, children(t, a)[k] as int)
}

/// The call `j` passes a `timeout=` keyword argument.
pub open spec fn has_timeout_kwarg(t: SyntaxTree, j: int) -> bool {
    match field_child(t, j, "arguments"@) {
        Some(a) => args_have_timeout(t, a),
        None => false,
    }
}

fn call_has_timeout_kwarg(t: &SyntaxTree, j: usize) -> (r: bool)
    requires
        wf(*t),
        j < t.nodes@.len(),
    ensures
        r == has_timeout_kwarg(*t, j as int),
{
    match field_child_exec(t, j, "arguments") {
        Some(a) => {
            let cs = &t.nodes[a].children;
            let mut k: usize = 0;
            while k < cs.len()
                invariant
                    wf(*t),
                    a < t.nodes@.len(),
                    field_child(*t, j as int, "arguments"@) == Some(a as int),
                    cs@ == children(*t, a as int),
                    k <= cs@.len(),
                    forall|m: int| 0 <= m < k ==> !#[trigger] timeout_kwarg_at(*t, cs@[m] as int),
                decreases cs.len() - k,
            {
                proof {
                    lemma_child_nested(*t, a as int, k as int);
                }
                let c = cs[k];
                if kind_is(t, c, "keyword_argument") && field_text_is_exec(t, c, "name", "timeout") {
                    assert(timeout_kwarg_at(*t, children(*t, a as int)[k as int] as int));
                    assert(args_have_timeout(*t, a as int));
                    return true;
                }
                k = k + 1;
            }
            false
        },
        None => false,
    }
}

/// Node `j` runs a process without a timeout.
pub open spec fn missing_timeout_at(t: SyntaxTree, j: int) -> bool {
    match call_function(t, j) {
        Some(f) => subprocess_functions().contains(text(t, f)) && !has_timeout_kwarg(t, j),
        None => false,
    }
}

fn is_subprocess_call_missing_timeout(t: &SyntaxTree, j: usize) -> (r: bool)
    requires
        wf(*t),
        j < t.nodes@.len(),
    ensures
        r == missing_timeout_at(*t, j as int),
{
    match call_function_exec(t, j) {
        Some(f) => str_in(t.nodes[f].text.as_str(), &subprocess_functions_list()) && !call_has_timeout_kwarg(t, j),
        None => false,
    }
}

/// Node `j` has the kind `k`.
pub open spec fn kind_at(t: SyntaxTree, j: int, k: Seq<char>) -> bool {
    kind(t, j) == k
}

fn kind_at_exec(t: &SyntaxTree, j: usize, k: &str) -> (r: bool)
    requires
        wf(*t),
        j < t.nodes@.len(),
    ensures
        r == kind_at(*t, j as int, k@),
{
    kind_is(t, j, k)
}

/// The subtree of node `i` holds a call of a sleep function.
pub open spec fn has_sleep_call(t: SyntaxTree, i: int) -> bool {
    exists|j: int| in_subtree(t, i, j) && #[trigger] sleep_call_at(t, j)
}

fn has_time_sleep_call(t: &SyntaxTree, i: usize) -> (r: bool)
    requires
        wf(*t),
        i < t.nodes@.len(),
    ensures
        r == has_sleep_call(*t, i as int),
{
    let e = t.nodes[i].end;
    let mut j: usize = i;
    while j < e
        invariant
            wf(*t),
            i <= j <= e,
            e == end(*t, i as int),
            e <= t.nodes@.len(),
            forall|m: int| i <= m < j ==> !#[trigger] sleep_call_at(*t, m),
        decreases e - j,
    {
        if is_sleep_call(t, j) {
            return true;
        }
        j = j + 1;
    }
    false
}

/// The subtree of node `i` holds a call that reads or writes a file.
pub open spec fn has_file_io(t: SyntaxTree, i: int) -> bool {
    exists|j: int| in_subtree(t, i, j) && #[trigger] file_io_at(t, j)
}

fn has_file_io_call(t: &SyntaxTree, i: usize) -> (r: bool)
    requires
        wf(*t),
        i < t.nodes@.len(),
    ensures
        r == has_file_io(*t, i as int),
{
    let e = t.nodes[i].end;
    let mut j: usize = i;
    while j < e
        invariant
            wf(*t),
            i <= j <= e,
            e == end(*t, i as int),
            e <= t.nodes@.len(),
            forall|m: int| i <= m < j ==> !#[trigger] file_io_at(*t, m),
        decreases e - j,
    {
        if file_io_at_exec(t, j) {
            return true;
        }
        j = j + 1;
    }
    false
}

/// The subtree of node `i` holds a call that reads or changes the working directory.
pub open spec fn has_cwd(t: SyntaxTree, i: int) -> bool {
    exists|j: int| in_subtree(t, i, j) && #[trigger] cwd_at(t, j)
}

fn has_cwd_call(t: &SyntaxTree, i: usize) -> (r: bool)
    requires
        wf(*t),
        i < t.nodes@.len(),
    ensures
        r == has_cwd(*t, i as int),
{
    let e = t.nodes[i].end;
    let mut j: usize = i;
    while j < e
        invariant
            wf(*t),
            i <= j <= e,
            e == end(*t, i as int),
            e <= t.nodes@.len(),
            forall|m: int| i <= m < j ==> !#[trigger] cwd_at(*t, m),
        decreases e - j,
    {
        if is_cwd_call_node(t, j) {
            return true;
        }
        j = j + 1;
    }
    false
}

/// The subtree of node `i` holds a call of `pytest.raises`.
pub open spec fn has_raises(t: SyntaxTree, i: int) -> bool {
    exists|j: int| in_subtree(t, i, j) && #[trigger] raises_at(t, j)
}

fn has_pytest_raises(t: &SyntaxTree, i: usize) -> (r: bool)
    requires
        wf(*t),
        i < t.nodes@.len(),
    ensures
        r == has_raises(*t, i as int),
{
    let e = t.nodes[i].end;
    let mut j: usize = i;
    while j < e
        invariant
            wf(*t),
            i <= j <= e,
            e == end(*t, i as int),
            e <= t.nodes@.len(),
            forall|m: int| i <= m < j ==> !#[trigger] raises_at(*t, m),
        decreases e - j,
    {
        if raises_at_exec(t, j) {
            return true;
        }
        j = j + 1;
    }
    false
}

/// The subtree of node `i` holds a call into a network library.
pub open spec fn has_network(t: SyntaxTree, i: int) -> bool {
    exists|j: int| in_subtree(t, i, j) && #[trigger] network_at(t, j)
}

fn has_network_call(t: &SyntaxTree, i: usize) -> (r: bool)
    requires
        wf(*t),
        i < t.nodes@.len(),
    ensures
        r == has_network(*t, i as int),
{
    let e = t.nodes[i].end;
    let mut j: usize = i;
    while j < e
        invariant
            wf(*t),
            i <= j <= e,
            e == end(*t, i as int),
            e <= t.nodes@.len(),
            forall|m: int| i <= m < j ==> !#[trigger] network_at(*t, m),
        decreases e - j,
    {
        if is_network_call_node(t, j) {
            return true;
        }
        j = j + 1;
    }
    false
}

/// The subtree of node `i` holds a call that draws a random value.
pub open spec fn has_random(t: SyntaxTree, i: int) -> bool {
    exists|j: int| in_subtree(t, i, j) && #[trigger] random_at(t, j)
}

fn has_random_call(t: &SyntaxTree, i: usize) -> (r: bool)
    requires
        wf(*t),
        i < t.nodes@.len(),
    ensures
        r == has_random(*t, i as int),
{
    let e = t.nodes[i].end;
    let mut j: usize = i;
    while j < e
        invariant
            wf(*t),
            i <= j <= e,
            e == end(*t, i as int),
            e <= t.nodes@.len(),
            forall|m: int| i <= m < j ==> !#[trigger] random_at(*t, m),
        decreases e - j,
    {
        if is_random_call_node(t, j) {
            return true;
        }
        j = j + 1;
    }
    false
}

/// The subtree of node `i` holds a call of `random.seed`.
pub open spec fn has_random_seed(t: SyntaxTree, i: int) -> bool {
    exists|j: int| in_subtree(t, i, j) && #[trigger] random_seed_at(t, j)
}

fn has_random_seed_call(t: &SyntaxTree, i: usize) -> (r: bool)
    requires
        wf(*t),
        i < t.nodes@.len(),
    ensures
        r == has_random_seed(*t, i as int),
{
    let e = t.nodes[i].end;
    let mut j: usize = i;
    while j < e
        invariant
            wf(*t),
            i <= j <= e,
            e == end(*t, i as int),
            e <= t.nodes@.len(),
            forall|m: int| i <= m < j ==> !#[trigger] random_seed_at(*t, m),
        decreases e - j,
    {
        if is_random_seed_call_node(t, j) {
            return true;
        }
        j = j + 1;
    }
    false
}

/// The subtree of node `i` holds a call that runs a process.
pub open spec fn has_subprocess(t: SyntaxTree, i: int) -> bool {
    exists|j: int| in_subtree(t, i, j) && #[trigger] subprocess_at(t, j)
}

fn has_subprocess_call(t: &SyntaxTree, i: usize) -> (r: bool)
    requires
        wf(*t),
        i < t.nodes@.len(),
    ensures
        r == has_subprocess(*t, i as int),
{
    let e = t.nodes[i].end;
    let mut j: usize = i;
    while j < e
        invariant
            wf(*t),
            i <= j <= e,
            e == end(*t, i as int),
            e <= t.nodes@.len(),
            forall|m: int| i <= m < j ==> !#[trigger] subprocess_at(*t, m),
        decreases e - j,
    {
        if is_subprocess_call_node(t, j) {
            return true;
        }
        j = j + 1;
    }
    false
}

/// The subtree of node `i` holds a process call without a timeout.
pub open spec fn has_missing_timeout(t: SyntaxTree, i: int) -> bool {
    exists|j: int| in_subtree(t, i, j) && #[trigger] missing_timeout_at(t, j)
}

fn has_missing_timeout_exec(t: &SyntaxTree, i: usize) -> (r: bool)
    requires
        wf(*t),
        i < t.nodes@.len(),
    ensures
        r == has_missing_timeout(*t, i as int),
{
    let e = t.nodes[i].end;
    let mut j: usize = i;
    while j < e
        invariant
            wf(*t),
            i <= j <= e,
            e == end(*t, i as int),
            e <= t.nodes@.len(),
            forall|m: int| i <= m < j ==> !#[trigger] missing_timeout_at(*t, m),
        decreases e - j,
    {
        if is_subprocess_call_missing_timeout(t, j) {
            return true;
        }
        j = j + 1;
    }
    false
}

/// The subtree of node `i` holds a database call of `method`.
pub open spec fn has_db_call(t: SyntaxTree, i: int, method: Seq<char>) -> bool {
    exists|j: int| in_subtree(t, i, j) && #[trigger] db_call_at(t, j, method)
}

fn has_db_call_exec(t: &SyntaxTree, i: usize, method: &str) -> (r: bool)
    requires
        wf(*t),
        i < t.nodes@.len(),
    ensures
        r == has_db_call(*t, i as int, method@),
{
    let e = t.nodes[i].end;
    let mut j: usize = i;
    while j < e
        invariant
            wf(*t),
            i <= j <= e,
            e == end(*t, i as int),
            e <= t.nodes@.len(),
            forall|m: int| i <= m < j ==> !#[trigger] db_call_at(*t, m, method@),
        decreases e - j,
    {
        if is_db_call_node(t, j, method) {
            return true;
        }
        j = j + 1;
    }
    false
}

/// The subtree of node `i` holds a node of kind `k`.
pub open spec fn has_kind(t: SyntaxTree, i: int, k: Seq<char>) -> bool {
    exists|j: int| in_subtree(t, i, j) && #[trigger] kind_at(t, j, k)
}

fn has_node_kind(t: &SyntaxTree, i: usize, k: &str) -> (r: bool)
    requires
        wf(*t),
        i < t.nodes@.len(),
    ensures
        r == has_kind(*t, i as int, k@),
{
    let e = t.nodes[i].end;
    let mut j: usize = i;
    while j < e
        invariant
            wf(*t),
            i <= j <= e,
            e == end(*t, i as int),
            e <= t.nodes@.len(),
            forall|m: int| i <= m < j ==> !#[trigger] kind_at(*t, m, k@),
        decreases e - j,
    {
        if kind_at_exec(t, j, k) {
            return true;
        }
        j = j + 1;
    }
    false
}

/// The state of the scan that counts top-level entries: entries counted,
/// bracket depth, the open quote, whether the last character was a
/// backslash, and whether the current entry has content.
pub type EntryScan = (nat, nat, Option<char>, bool, bool);

/// One character of the entry scan.
pub open spec fn entry_step(s: EntryScan, c: char) -> EntryScan {
    let (count, depth, quote, escape, content) = s;
    if escape {
        (count, depth, quote, false, true)
    } else if c == '\\' {
        (count, depth, quote, true, true)
    } else if quote is Some {
        if c == quote->0 {
            (count, depth, None, false, true)
        } else {
            (count, depth, quote, false, true)
        }
    } else if c == '"' || c == '\'' {
        (count, depth, Some(c), false, true)
    } else if c == '(' || c == '[' || c == '{' {
        (count, depth + 1, None, false, true)
    } else if (c == ')' || c == ']' || c == '}') && depth > 0 {
        (count, (depth - 1) as nat, None, false, true)
    } else if c == ',' && depth == 0 {
        (if content { count + 1 } else { count }, depth, None, false, false)
    } else {
        (count, depth, None, false, content || !is_space(c))
    }
}

/// The entry scan after the first `n` characters of `cs`.
pub open spec fn entry_scan(cs: Seq<char>, n: int) -> EntryScan
    decreases n,
{
    if n <= 0 {
        (0, 0, None, false, false)
    } else {
        entry_step(entry_scan(cs, n - 1), cs[n - 1])
    }
}

/// The number of comma-separated entries of `inner` at bracket depth 0,
/// where quoted text and escaped characters do not separate entries and an
/// entry of white space alone does not count.
pub open spec fn top_level_entries(inner: Seq<char>) -> nat {
    let s = entry_scan(inner, inner.len() as int);
    if s.4 {
        s.0 + 1
    } else {
        s.0
    }
}

/// The number of characters of `s` equal to `c`.
pub open spec fn char_count_of(s: Seq<char>, c: char) -> nat
    decreases s.len(),
{
    if s.len() == 0 {
        0
    } else {
        char_count_of(s.drop_last(), c) + if s.last() == c {
            1nat
        } else {
            0nat
        }
    }
}

/// The number of parametrize cases a decorator text names: the top-level
/// entries between its last `[` and its last `]` when the `]` comes later,
/// else 2 when it holds more than one `(`, else 1.
#[verifier::opaque]
pub open spec fn parametrize_args(dec: Seq<char>) -> nat {
    let a = last_occurrence(dec, "["@);
    let b = last_occurrence(dec, "]"@);
    if a is Some && b is Some && b->0 > a->0 {
        top_level_entries(dec.subrange(a->0 + 1, b->0))
    } else if char_count_of(dec, '(') > 1 {
        2
    } else {
        1
    }
}

/// The text of the first quoted string that `text` starts with (after white
/// space), in double or single quotes.
#[verifier::opaque]
pub open spec fn first_string_arg(text: Seq<char>) -> Option<Seq<char>> {
    let s = trim_start(text);
    if s.len() > 0 && (s[0] == '"' || s[0] == '\'') {
        let rest = s.drop_first();
        match first_occurrence(rest, seq![s[0]]) {
            Some(e) => Some(rest.subrange(0, e)),
            None => None,
        }
    } else {
        None
    }
}

/// The target of a `patch(...)` text: the first string argument after its
/// first `(`.
#[verifier::opaque]
pub open spec fn patch_target(text: Seq<char>) -> Option<Seq<char>> {
    match first_occurrence(text, "("@) {
        Some(p) => first_string_arg(text.subrange(p + 1, text.len() as int)),
        None => None,
    }
}

/// The body verifies mocks and has no plain `assert`.
pub open spec fn mock_verifications_only(body: Seq<char>) -> bool {
    (exists|k: int| 0 <= k < verification_texts().len() && contains(body, #[trigger] verification_texts()[k]))
        && !(contains(body, "assert "@) || contains(body, "assert("@))
}

/// `s` without its leading `c` characters.
pub open spec fn strip_leading(s: Seq<char>, c: char) -> Seq<char>
    decreases s.len(),
{
    if s.len() > 0 && s[0] == c {
        strip_leading(s.drop_first(), c)
    } else {
        s
    }
}

/// The name of a decorator: its text after the leading `@`s, up to the first
/// `(`, trimmed.
pub open spec fn decorator_name(dec: Seq<char>) -> Seq<char> {
    trim(split(strip_leading(dec, '@'), '(')[0])
}

/// The positions at which `pat` is found by a left-to-right scan of `hay`
/// from `start` that resumes after each match.
#[verifier::opaque]
pub open spec fn match_positions(hay: Seq<char>, pat: Seq<char>, start: int) -> Seq<int>
    decreases hay.len() - start,
{
    if pat.len() == 0 || start < 0 || start > hay.len() {
        Seq::empty()
    } else {
        match first_occurrence(hay.subrange(start, hay.len() as int), pat) {
            Some(p) => if p >= 0 && start + p + pat.len() <= hay.len() {
                seq![start + p] + match_positions(hay, pat, start + p + pat.len())
            } else {
                Seq::empty()
            },
            None => Seq::empty(),
        }
    }
}

/// The number of matches of `pat` that a left-to-right scan of `hay` finds.
pub open spec fn match_count(hay: Seq<char>, pat: Seq<char>) -> nat {
    match_positions(hay, pat, 0).len()
}

/// `target` names a standard-library module (by prefix).
pub open spec fn stdlib_target(target: Seq<char>) -> bool {
    exists|k: int| 0 <= k < stdlib_modules().len() && starts_with(target, #[trigger] stdlib_modules()[k])
}

impl PythonParser {
    /// The number of comma-separated entries of `inner` at bracket depth 0.
    pub fn count_top_level_entries(inner: &str) -> (r: usize)
        ensures
            r == top_level_entries(inner@),
    {
        let cs = chars_of(inner);
        let mut count: usize = 0;
        let mut depth: usize = 0;
        let mut quote: Option<char> = None;
        let mut escape = false;
        let mut content = false;
        let mut i: usize = 0;
        while i < cs.len()
            invariant
                i <= cs@.len(),
                cs@ == inner@,
                count <= i,
                content ==> count < i,
                depth <= i,
                entry_scan(cs@, i as int) == (count as nat, depth as nat, quote, escape, content),
            decreases cs.len() - i,
        {
            let c = cs[i];
            if escape {
                escape = false;
                content = true;
            } else if c == '\\' {
                escape = true;
                content = true;
            } else if quote.is_some() {
                if Some(c) == quote {
                    quote = None;
                }
                content = true;
            } else if c == '"' || c == '\'' {
                quote = Some(c);
                content = true;
            } else if c == '(' || c == '[' || c == '{' {
                depth = depth + 1;
                content = true;
            } else if (c == ')' || c == ']' || c == '}') && depth > 0 {
                depth = depth - 1;
                content = true;
            } else if c == ',' && depth == 0 {
                if content {
                    count = count + 1;
                }
                content = false;
            } else {
                if !is_space_exec(c) {
                    content = true;
                }
            }
            i = i + 1;
        }
        if content {
            count + 1
        } else {
            count
        }
    }

    /// The number of parametrize cases a decorator text names.
    pub fn count_parametrize_args(dec: &str) -> (r: usize)
        ensures
            r == parametrize_args(dec@),
    {
        let cs = chars_of(dec);
        let ob = chars_of("[");
        let cb = chars_of("]");
        let open_b = rfind(&cs, &ob);
        let close_b = rfind(&cs, &cb);
        if open_b.is_some() && close_b.is_some() {
            let a = open_b.unwrap();
            let b = close_b.unwrap();
            if b > a {
                let inner = string_of(&cs, a + 1, b);
                let r = Self::count_top_level_entries(inner.as_str());
                assert(r == parametrize_args(dec@)) by {
                    reveal(parametrize_args);
                }
                return r;
            }
        }
        let mut opens: usize = 0;
        let mut i: usize = 0;
        while i < cs.len()
            invariant
                i <= cs@.len(),
                opens <= i,
                opens == char_count_of(cs@.take(i as int), '('),
            decreases cs.len() - i,
        {
            assert(cs@.take(i + 1).drop_last() =~= cs@.take(i as int));
            if cs[i] == '(' {
                opens = opens + 1;
            }
            i = i + 1;
        }
        assert(cs@.take(cs@.len() as int) =~= cs@);
        let r: usize = if opens > 1 {
            2
        } else {
            1
        };
        assert(r == parametrize_args(dec@)) by {
            reveal(parametrize_args);
        }
        r
    }
}

/// The first quoted string that `text` starts with, after white space.
pub fn extract_first_string_arg(text: &str) -> (r: Option<String>)
    ensures
        crate::models::opt_text(r) == first_string_arg(text@),
{
    let cs = chars_of(text);
    let (a, _b) = trim_bounds(&cs);
    let s = slice_chars(&cs, a, cs.len());
    if s.len() > 0 && (s[0] == '"' || s[0] == '\'') {
        let rest = slice_chars(&s, 1, s.len());
        assert(rest@ =~= s@.drop_first());
        let mut q: Vec<char> = Vec::new();
        q.push(s[0]);
        assert(q@ =~= seq![s@[0]]);
        let found = find(&rest, &q);
        match found {
            Some(e) => {
                let r = string_of(&rest, 0, e);
                assert(crate::models::opt_text(Some(r)) == first_string_arg(text@)) by {
                    reveal(first_string_arg);
                }
                Some(r)
            },
            None => {
                assert(first_string_arg(text@) is None) by {
                    reveal(first_string_arg);
                }
                None
            },
        }
    } else {
        assert(first_string_arg(text@) is None) by {
            reveal(first_string_arg);
        }
        None
    }
}

/// The target of a `patch(...)` text: the first string argument after its
/// first `(`.
pub fn extract_patch_target(text: &str) -> (r: Option<String>)
    ensures
        crate::models::opt_text(r) == patch_target(text@),
{
    let cs = chars_of(text);
    let pat = chars_of("(");
    let found = find(&cs, &pat);
    match found {
        Some(p) => {
            proof {
                reveal_strlit("(");
            }
            let n = cs.len();
            assert(p + 1 <= n);
            let q = p + 1;
            let rest = string_of(&cs, q, n);
            let r = extract_first_string_arg(rest.as_str());
            assert(crate::models::opt_text(r) == patch_target(text@)) by {
                reveal(patch_target);
            }
            r
        },
        None => {
            assert(patch_target(text@) is None) by {
                reveal(patch_target);
            }
            None
        },
    }
}

/// Whether a body verifies mocks and has no plain `assert`.
pub fn has_mock_verifications_only(body_text: &str) -> (r: bool)
    ensures
        r == mock_verifications_only(body_text@),
{
    let l = verification_texts_list();
    let has_mock = str_contains_any(body_text, &l);
    proof {
        assert(l@.map_values(|s: &'static str| s@) == verification_texts());
        if has_mock {
            let k = choose|k: int| 0 <= k < l@.len() && contains(body_text@, #[trigger] l@[k]@);
            assert(verification_texts()[k] == l@[k]@);
        }
        if exists|k: int| 0 <= k < verification_texts().len() && contains(body_text@, #[trigger] verification_texts()[k]) {
            let k = choose|k: int| 0 <= k < verification_texts().len() && contains(body_text@, #[trigger] verification_texts()[k]);
            assert(verification_texts()[k] == l@[k]@);
        }
    }
    let has_assert = str_contains(body_text, "assert ") || str_contains(body_text, "assert(");
    has_mock && !has_assert
}

/// The name of a decorator: its text after the leading `@`s, up to the
/// first `(`, trimmed.
pub fn decorator_name_exec(dec: &str) -> (r: String)
    ensures
        r@ == decorator_name(dec@),
{
    let cs = chars_of(dec);
    assert(cs@.subrange(0, cs@.len() as int) =~= cs@);
    let mut a: usize = 0;
    while a < cs.len() && cs[a] == '@'
        invariant
            a <= cs@.len(),
            strip_leading(cs@, '@') == strip_leading(cs@.subrange(a as int, cs@.len() as int), '@'),
        decreases cs.len() - a,
    {
        let ghost rest = cs@.subrange(a as int, cs@.len() as int);
        assert(rest.drop_first() =~= cs@.subrange(a + 1, cs@.len() as int));
        a = a + 1;
    }
    let stripped = slice_chars(&cs, a, cs.len());
    assert(strip_leading(stripped@, '@') == stripped@);
    let pieces = split_exec(&stripped, '(');
    let first = &pieces[0];
    let t = trim_exec(first);
    string_of_all(&t)
}

proof fn lemma_match_positions_step(hay: Seq<char>, pat: Seq<char>, start: int)
    requires
        pat.len() > 0,
        0 <= start <= hay.len(),
    ensures
        first_occurrence(hay.subrange(start, hay.len() as int), pat) is None ==> match_positions(hay, pat, start)
            == Seq::<int>::empty(),
        first_occurrence(hay.subrange(start, hay.len() as int), pat) matches Some(p) ==> (
        occurs_at(hay.subrange(start, hay.len() as int), pat, p) ==> match_positions(hay, pat, start) == seq![start
            + p] + match_positions(hay, pat, start + p + pat.len())),
{
    reveal(match_positions);
}

/// The positions of the matches of `pat` in `hay`, scanning left to right
/// and resuming after each match.
pub fn match_positions_exec(hay: &Vec<char>, pat: &Vec<char>) -> (r: Vec<usize>)
    ensures
        r@.map_values(|p: usize| p as int) == match_positions(hay@, pat@, 0),
        forall|k: int| 0 <= k < r@.len() ==> #[trigger] r@[k] <= hay@.len(),
{
    let mut out: Vec<usize> = Vec::new();
    if pat.len() == 0 {
        assert(match_positions(hay@, pat@, 0) == Seq::<int>::empty()) by {
            reveal(match_positions);
        }
        return out;
    }
    let mut start: usize = 0;
    loop
        invariant
            start <= hay@.len(),
            pat@.len() > 0,
            out@.map_values(|p: usize| p as int) + match_positions(hay@, pat@, start as int) == match_positions(hay@, pat@, 0),
            forall|k: int| 0 <= k < out@.len() ==> #[trigger] out@[k] <= hay@.len(),
        decreases hay.len() - start,
    {
        let rest = slice_chars(hay, start, hay.len());
        proof {
            lemma_match_positions_step(hay@, pat@, start as int);
        }
        let found = find(&rest, pat);
        match found {
            Some(p) => {
                assert(p + pat@.len() <= rest@.len());
                let ghost before = out@.map_values(|q: usize| q as int);
                let ghost tail = match_positions(hay@, pat@, start + p + pat@.len());
                out.push(start + p);
                assert(out@.map_values(|q: usize| q as int) =~= before.push(start + p));
                assert(before.push(start + p) + tail =~= before + (seq![start + p] + tail));
                start = start + p + pat.len();
            },
            None => {
                let ghost before = out@.map_values(|q: usize| q as int);
                assert(before + Seq::<int>::empty() =~= before);
                return out;
            },
        }
    }
}

/// Whether the patch target names a standard-library module.
fn stdlib_target_exec(target: &str) -> (r: bool)
    ensures
        r == stdlib_target(target@),
{
    let l = stdlib_modules_list();
    let ghost ls = l@.map_values(|s: &'static str| s@);
    let mut k: usize = 0;
    while k < l.len()
        invariant
            k <= l@.len(),
            ls == l@.map_values(|s: &'static str| s@),
            ls == stdlib_modules(),
            forall|m: int| 0 <= m < k ==> !starts_with(target@, #[trigger] ls[m]),
        decreases l.len() - k,
    {
        assert(ls[k as int] == l@[k as int]@);
        if str_starts_with(target, l[k]) {
            return true;
        }
        k = k + 1;
    }
    false
}

/// The line number (1-based) of a 0-based row.
pub open spec fn line_of(row: usize) -> usize {
    if row < usize::MAX {
        (row + 1) as usize
    } else {
        row
    }
}

fn line_of_exec(row: usize) -> (r: usize)
    ensures
        r == line_of(row),
{
    if row < usize::MAX {
        row + 1
    } else {
        row
    }
}

/// The number of nodes of kind `k` among the nodes `[a, b)`.
pub open spec fn count_kind_in(t: SyntaxTree, k: Seq<char>, a: int, b: int) -> nat
    decreases b - a,
{
    if b <= a {
        0
    } else {
        count_kind_in(t, k, a, b - 1) + if kind(t, b - 1) == k {
            1nat
        } else {
            0nat
        }
    }
}

/// The number of nodes of kind `k` in the subtree of node `i`.
fn count_kind_exec(t: &SyntaxTree, i: usize, k: &str) -> (r: usize)
    requires
        wf(*t),
        i < t.nodes@.len(),
    ensures
        r == count_kind_in(*t, k@, i as int, end(*t, i as int)),
{
    let e = t.nodes[i].end;
    let mut n: usize = 0;
    let mut j: usize = i;
    while j < e
        invariant
            wf(*t),
            i <= j <= e,
            e == end(*t, i as int),
            e <= t.nodes@.len(),
            n <= j - i,
            n == count_kind_in(*t, k@, i as int, j as int),
        decreases e - j,
    {
        if kind_is(t, j, k) {
            n = n + 1;
        }
        j = j + 1;
    }
    n
}

/// The node after the subtree of `j` (the next node when the tree says
/// otherwise).
pub open spec fn after_subtree(t: SyntaxTree, j: int) -> int {
    if end(t, j) > j {
        end(t, j)
    } else {
        j + 1
    }
}

/// Whether node `c` can be the expression of an assert statement: not a
/// comma, a comment or the `assert` keyword.
pub open spec fn expression_kind(t: SyntaxTree, c: int) -> bool {
    !starts_with(kind(t, c), ","@) && kind(t, c) != "comment"@ && kind(t, c) != "assert"@
}

/// The position among the first `n` children `cs` of the first expression child.
pub open spec fn first_expression(t: SyntaxTree, cs: Seq<usize>, n: int) -> Option<int>
    decreases n,
{
    if n <= 0 {
        None
    } else {
        match first_expression(t, cs, n - 1) {
            Some(k) => Some(k),
            None => if expression_kind(t, cs[n - 1] as int) {
                Some(n - 1)
            } else {
                None
            },
        }
    }
}

/// The expression of the assert statement `s`: its first child that is not
/// a comma, a comment or the keyword.
pub open spec fn assert_expr(t: SyntaxTree, s: int) -> Option<int> {
    let cs = children(t, s);
    match first_expression(t, cs, cs.len() as int) {
        Some(k) => Some(cs[k] as int),
        None => None,
    }
}

proof fn lemma_first_expression_stable(t: SyntaxTree, cs: Seq<usize>, a: int, b: int)
    requires
        0 <= a <= b,
        first_expression(t, cs, a) is Some,
    ensures
        first_expression(t, cs, b) == first_expression(t, cs, a),
    decreases b - a,
{
    if a < b {
        lemma_first_expression_stable(t, cs, a, b - 1);
    }
}

fn assert_expr_exec(t: &SyntaxTree, s: usize) -> (r: Option<usize>)
    requires
        wf(*t),
        s < t.nodes@.len(),
    ensures
        r is None <==> assert_expr(*t, s as int) is None,
        r matches Some(x) ==> assert_expr(*t, s as int) == Some(x as int) && s < x < end(*t, s as int) && end(
            *t,
            x as int,
        ) <= end(*t, s as int),
{
    let cs = &t.nodes[s].children;
    let mut k: usize = 0;
    while k < cs.len()
        invariant
            wf(*t),
            s < t.nodes@.len(),
            cs@ == children(*t, s as int),
            k <= cs@.len(),
            first_expression(*t, cs@, k as int) is None,
        decreases cs.len() - k,
    {
        proof {
            lemma_child_nested(*t, s as int, k as int);
        }
        let c = cs[k];
        let kd = t.nodes[c].kind.as_str();
        if !str_starts_with(kd, ",") && !str_eq(kd, "comment") && !str_eq(kd, "assert") {
            proof {
                assert(first_expression(*t, cs@, k + 1) == Some(k as int));
                lemma_first_expression_stable(*t, cs@, k + 1, cs@.len() as int);
            }
            return Some(c);
        }
        k = k + 1;
    }
    None
}

/// The assert statements among the nodes `[j, e)` that have an expression,
/// in order, without looking inside an assert statement.
pub open spec fn assert_nodes(t: SyntaxTree, j: int, e: int) -> Seq<int>
    decreases e - j,
{
    if j >= e || j < 0 || j >= t.nodes@.len() {
        Seq::empty()
    } else if kind(t, j) == "assert_statement"@ {
        let nj = after_subtree(t, j);
        let rest = assert_nodes(t, if nj <= e { nj } else { e }, e);
        if assert_expr(t, j) is Some {
            seq![j] + rest
        } else {
            rest
        }
    } else {
        assert_nodes(t, j + 1, e)
    }
}

/// The assertion is a magic one: a boolean literal, the integer 0 or 1, or
/// (without a comparison) a bare name.
pub open spec fn magic_expr(t: SyntaxTree, x: int, has_comparison: bool) -> bool {
    if kind(t, x) == "true"@ || kind(t, x) == "false"@ {
        true
    } else if kind(t, x) == "integer"@ {
        text(t, x) == "0"@ || text(t, x) == "1"@
    } else {
        !has_comparison && kind(t, x) == "identifier"@
    }
}

/// Node `c` is a call of `len` or `type`.
pub open spec fn len_or_type_call(t: SyntaxTree, c: int) -> bool {
    kind(t, c) == "call"@ && (field_text_is(t, c, "function"@, "len"@) || field_text_is(t, c, "function"@, "type"@))
}

/// Some child of node `c` has the kind `k`.
pub open spec fn has_child_kind(t: SyntaxTree, c: int, k: Seq<char>) -> bool {
    exists|m: int| 0 <= m < children(t, c).len() && #[trigger] kind_at(t, children(t, c)[m] as int, k)
}

fn has_child_kind_exec(t: &SyntaxTree, c: usize, k: &str) -> (r: bool)
    requires
        wf(*t),
        c < t.nodes@.len(),
    ensures
        r == has_child_kind(*t, c as int, k@),
{
    let cs = &t.nodes[c].children;
    let mut m: usize = 0;
    while m < cs.len()
        invariant
            wf(*t),
            c < t.nodes@.len(),
            cs@ == children(*t, c as int),
            m <= cs@.len(),
            forall|q: int| 0 <= q < m ==> !#[trigger] kind_at(*t, cs@[q] as int, k@),
        decreases cs.len() - m,
    {
        proof {
            lemma_child_nested(*t, c as int, m as int);
        }
        if kind_is(t, cs[m], k) {
            assert(kind_at(*t, children(*t, c as int)[m as int] as int, k@));
            return true;
        }
        m = m + 1;
    }
    false
}

/// What child `c` of the comparison `x` decides about the assertion being
/// suboptimal: `is`/`is not` clear it; a `len`/`type` call, a `not None`
/// or a `None` compared with `==`, `!=` or `not` mark it.
pub open spec fn suboptimal_decision(t: SyntaxTree, x: int, c: int) -> Option<bool> {
    if kind(t, c) == "is"@ || kind(t, c) == "is not"@ {
        Some(false)
    } else if len_or_type_call(t, c) || (kind(t, c) == "not"@ && has_child_kind(t, c, "none"@)) || (kind(t, c)
        == "none"@ && (contains(text(t, x), "=="@) || contains(text(t, x), "!="@) || contains(text(t, x), "not"@))) {
        Some(true)
    } else {
        None
    }
}

/// The first decision among the first `n` children `cs` of `x`.
pub open spec fn suboptimal_scan(t: SyntaxTree, x: int, cs: Seq<usize>, n: int) -> Option<bool>
    decreases n,
{
    if n <= 0 {
        None
    } else {
        match suboptimal_scan(t, x, cs, n - 1) {
            Some(b) => Some(b),
            None => suboptimal_decision(t, x, cs[n - 1] as int),
        }
    }
}

/// The assertion `x` is a comparison written in a roundabout way.
pub open spec fn suboptimal(t: SyntaxTree, x: int) -> bool {
    kind(t, x) == "comparison_operator"@ && suboptimal_scan(t, x, children(t, x), children(t, x).len() as int)
        == Some(true)
}

fn is_suboptimal_assertion(t: &SyntaxTree, x: usize) -> (r: bool)
    requires
        wf(*t),
        x < t.nodes@.len(),
    ensures
        r == suboptimal(*t, x as int),
{
    if !kind_is(t, x, "comparison_operator") {
        return false;
    }
    let cs = &t.nodes[x].children;
    let xt = t.nodes[x].text.as_str();
    let mut m: usize = 0;
    while m < cs.len()
        invariant
            wf(*t),
            x < t.nodes@.len(),
            kind(*t, x as int) == "comparison_operator"@,
            xt@ == text(*t, x as int),
            cs@ == children(*t, x as int),
            m <= cs@.len(),
            suboptimal_scan(*t, x as int, cs@, m as int) is None,
        decreases cs.len() - m,
    {
        proof {
            lemma_child_nested(*t, x as int, m as int);
        }
        let c = cs[m];
        let decided: Option<bool> = if kind_is(t, c, "is") || kind_is(t, c, "is not") {
            Some(false)
        } else if (kind_is(t, c, "call") && (field_text_is_exec(t, c, "function", "len") || field_text_is_exec(
            t,
            c,
            "function",
            "type",
        ))) || (kind_is(t, c, "not") && has_child_kind_exec(t, c, "none")) || (kind_is(t, c, "none") && (
        str_contains(xt, "==") || str_contains(xt, "!=") || str_contains(xt, "not"))) {
            Some(true)
        } else {
            None
        };
        assert(decided == suboptimal_decision(*t, x as int, cs@[m as int] as int));
        if decided.is_some() {
            proof {
                lemma_suboptimal_scan_stable(*t, x as int, cs@, m + 1, cs@.len() as int);
            }
            return decided.unwrap();
        }
        m = m + 1;
    }
    false
}

proof fn lemma_suboptimal_scan_stable(t: SyntaxTree, x: int, cs: Seq<usize>, a: int, b: int)
    requires
        0 <= a <= b,
        suboptimal_scan(t, x, cs, a) is Some,
    ensures
        suboptimal_scan(t, x, cs, b) == suboptimal_scan(t, x, cs, a),
    decreases b - a,
{
    if a < b {
        lemma_suboptimal_scan_stable(t, x, cs, a, b - 1);
    }
}

/// The assertion information matches the assert statement `s` of `t`.
pub open spec fn assertion_info_of(a: AssertionInfo, t: SyntaxTree, s: int) -> bool {
    match assert_expr(t, s) {
        Some(x) => {
            &&& a.line == line_of(t.nodes@[s].start_row)
            &&& a.expression_text@ == text(t, x)
            &&& a.has_comparison == has_kind(t, x, "comparison_operator"@)
            &&& a.is_magic == magic_expr(t, x, a.has_comparison)
            &&& a.is_suboptimal == suboptimal(t, x)
        },
        None => false,
    }
}

/// The assertions of the subtree `[i, e)`: one per assert statement that has
/// an expression.
pub open spec fn assertions_of(v: Seq<AssertionInfo>, t: SyntaxTree, i: int, e: int) -> bool {
    let ns = assert_nodes(t, i, e);
    v.len() == ns.len() && forall|k: int| 0 <= k < v.len() ==> #[trigger] assertion_info_of(v[k], t, ns[k])
}

fn collect_assertion_info(t: &SyntaxTree, i: usize) -> (r: Vec<AssertionInfo>)
    requires
        wf(*t),
        i < t.nodes@.len(),
    ensures
        assertions_of(r@, *t, i as int, end(*t, i as int)),
{
    let e = t.nodes[i].end;
    let mut out: Vec<AssertionInfo> = Vec::new();
    let mut j: usize = i;
    while j < e
        invariant
            wf(*t),
            i <= j <= e,
            e == end(*t, i as int),
            e <= t.nodes@.len(),
            out@.len() + assert_nodes(*t, j as int, e as int).len() == assert_nodes(*t, i as int, e as int).len(),
            forall|k: int|
                0 <= k < out@.len() ==> #[trigger] assertion_info_of(out@[k], *t, assert_nodes(*t, i as int, e as int)[k]),
            forall|k: int|
                0 <= k < assert_nodes(*t, j as int, e as int).len() ==> assert_nodes(*t, j as int, e as int)[k]
                    == assert_nodes(*t, i as int, e as int)[out@.len() + k],
        decreases e - j,
    {
        let ghost total = assert_nodes(*t, i as int, e as int);
        if kind_is(t, j, "assert_statement") {
            let nj = if t.nodes[j].end > j { t.nodes[j].end } else { j + 1 };
            proof {
                lemma_subtree_nested(*t, i as int, j as int);
            }
            let ghost rest = assert_nodes(*t, nj as int, e as int);
            match assert_expr_exec(t, j) {
                Some(x) => {
                    let compared = has_node_kind(t, x, "comparison_operator");
                    let magic = if kind_is(t, x, "true") || kind_is(t, x, "false") {
                        true
                    } else if kind_is(t, x, "integer") {
                        text_is(t, x, "0") || text_is(t, x, "1")
                    } else {
                        !compared && kind_is(t, x, "identifier")
                    };
                    let info = AssertionInfo {
                        is_magic: magic,
                        is_suboptimal: is_suboptimal_assertion(t, x),
                        has_comparison: compared,
                        expression_text: t.nodes[x].text.clone(),
                        line: line_of_exec(t.nodes[j].start_row),
                    };
                    assert(assert_nodes(*t, j as int, e as int) == seq![j as int] + rest);
                    assert(assert_nodes(*t, j as int, e as int)[0] == j as int);
                    assert(total[out@.len() as int + 0] == j as int);
                    out.push(info);
                    assert forall|k: int| 0 <= k < rest.len() implies rest[k] == total[out@.len() + k] by {
                        assert(assert_nodes(*t, j as int, e as int)[k + 1] == rest[k]);
                    }
                },
                None => {
                    assert(assert_nodes(*t, j as int, e as int) == rest);
                },
            }
            j = nj;
        } else {
            assert(assert_nodes(*t, j as int, e as int) == assert_nodes(*t, j + 1, e as int));
            j = j + 1;
        }
    }
    out
}

/// `d` with the category `c` added unless it is there.
pub open spec fn add_category(d: Seq<Seq<char>>, c: Seq<char>) -> Seq<Seq<char>> {
    if d.contains(c) {
        d
    } else {
        d.push(c)
    }
}

fn add_category_exec(d: &mut Vec<String>, c: &str)
    ensures
        crate::models::texts(final(d)@) == add_category(crate::models::texts(old(d)@), c@),
{
    let present = crate::rules::texts_contain_exec(d, c);
    proof {
        let v = crate::models::texts(d@);
        if present {
            let w = choose|w: int| 0 <= w < d@.len() && #[trigger] d@[w]@ == c@;
            assert(v[w] == c@);
        } else if v.contains(c@) {
            let w = choose|w: int| 0 <= w < v.len() && v[w] == c@;
            assert(d@[w]@ == c@);
        }
    }
    if !present {
        let ghost before = crate::models::texts(d@);
        d.push(String::from_str(c));
        assert(crate::models::texts(d@) =~= before.push(c@));
    }
}

/// `d` after the call `j` is checked for weak assertion helpers.
pub open spec fn weak_call(t: SyntaxTree, j: int, d: Seq<Seq<char>>) -> Seq<Seq<char>> {
    match call_function(t, j) {
        Some(f) => {
            let ft = text(t, f);
            let d1 = if contains(ft, "assertIsInstance"@) {
                add_category(d, "type-only assertion"@)
            } else {
                d
            };
            let d2 = if contains(ft, "isinstance"@) {
                add_category(d1, "type-only assertion"@)
            } else {
                d1
            };
            let d3 = if contains(ft, "assertTrue"@) {
                add_category(d2, "existence-only assertion"@)
            } else {
                d2
            };
            let d4 = if contains(ft, "assertIsNotNone"@) {
                add_category(d3, "existence-only assertion"@)
            } else {
                d3
            };
            if contains(ft, "assertIn"@) {
                add_category(d4, "key-presence-only assertion"@)
            } else {
                d4
            }
        },
        None => d,
    }
}

/// The trimmed texts of the children `cs`.
pub open spec fn trimmed_texts(t: SyntaxTree, cs: Seq<usize>) -> Seq<Seq<char>> {
    cs.map_values(|c: usize| trim(text(t, c as int)))
}

/// `d` after the operators of a comparison (the first `n` of `ops`) are
/// checked: `in` marks a key-presence check and `is not` with a `None` an
/// existence check.
pub open spec fn weak_ops(ops: Seq<Seq<char>>, n: int, d: Seq<Seq<char>>) -> Seq<Seq<char>>
    decreases n,
{
    if n <= 0 {
        d
    } else {
        let p = weak_ops(ops, n - 1, d);
        let op = ops[n - 1];
        let p1 = if op == "in"@ {
            add_category(p, "key-presence-only assertion"@)
        } else {
            p
        };
        if op == "is not"@ && ops.contains("None"@) {
            add_category(p1, "existence-only assertion"@)
        } else {
            p1
        }
    }
}

/// `d` after the children `cs` (the first `n`) are checked for `type`
/// followed by `==` or `is`.
pub open spec fn weak_types(t: SyntaxTree, cs: Seq<usize>, n: int, d: Seq<Seq<char>>) -> Seq<Seq<char>>
    decreases n,
{
    if n <= 0 {
        d
    } else {
        let p = weak_types(t, cs, n - 1, d);
        let m = n - 1;
        if text(t, cs[m] as int) == "type"@ && m + 1 < cs.len() && (text(t, cs[m + 1] as int) == "=="@ || text(
            t,
            cs[m + 1] as int,
        ) == "is"@) {
            add_category(p, "type-only assertion"@)
        } else {
            p
        }
    }
}

/// `d` after the comparison `j` is checked for weak assertion patterns.
pub open spec fn weak_comparison(t: SyntaxTree, j: int, d: Seq<Seq<char>>) -> Seq<Seq<char>> {
    if kind(t, j) != "comparison_operator"@ {
        d
    } else {
        let cs = children(t, j);
        let ops = trimmed_texts(t, cs);
        weak_types(t, cs, cs.len() as int, weak_ops(ops, ops.len() as int, d))
    }
}

/// The weak-assertion categories found in the nodes `[a, b)`, in order of
/// first finding.
pub open spec fn weak_details(t: SyntaxTree, a: int, b: int) -> Seq<Seq<char>>
    decreases b - a,
{
    if b <= a {
        Seq::empty()
    } else {
        let d = weak_details(t, a, b - 1);
        weak_comparison(t, b - 1, weak_call(t, b - 1, d))
    }
}

fn check_weak_call(t: &SyntaxTree, j: usize, d: &mut Vec<String>)
    requires
        wf(*t),
        j < t.nodes@.len(),
    ensures
        crate::models::texts(final(d)@) == weak_call(*t, j as int, crate::models::texts(old(d)@)),
{
    match call_function_exec(t, j) {
        Some(f) => {
            let ft = t.nodes[f].text.as_str();
            if str_contains(ft, "assertIsInstance") {
                add_category_exec(d, "type-only assertion");
            }
            if str_contains(ft, "isinstance") {
                add_category_exec(d, "type-only assertion");
            }
            if str_contains(ft, "assertTrue") {
                add_category_exec(d, "existence-only assertion");
            }
            if str_contains(ft, "assertIsNotNone") {
                add_category_exec(d, "existence-only assertion");
            }
            if str_contains(ft, "assertIn") {
                add_category_exec(d, "key-presence-only assertion");
            }
        },
        None => {},
    }
}

fn check_weak_comparison(t: &SyntaxTree, j: usize, d: &mut Vec<String>)
    requires
        wf(*t),
        j < t.nodes@.len(),
    ensures
        crate::models::texts(final(d)@) == weak_comparison(*t, j as int, crate::models::texts(old(d)@)),
{
    if !kind_is(t, j, "comparison_operator") {
        return;
    }
    let cs = &t.nodes[j].children;
    let mut ops: Vec<String> = Vec::new();
    let mut m: usize = 0;
    while m < cs.len()
        invariant
            wf(*t),
            j < t.nodes@.len(),
            cs@ == children(*t, j as int),
            m <= cs@.len(),
            crate::models::texts(ops@) == trimmed_texts(*t, cs@.take(m as int)),
        decreases cs.len() - m,
    {
        proof {
            lemma_child_nested(*t, j as int, m as int);
        }
        let s = str_trim(t.nodes[cs[m]].text.as_str());
        let ghost before = crate::models::texts(ops@);
        ops.push(s);
        assert(crate::models::texts(ops@) =~= before.push(trim(text(*t, cs@[m as int] as int))));
        assert(trimmed_texts(*t, cs@.take(m + 1)) =~= trimmed_texts(*t, cs@.take(m as int)).push(trim(text(*t, cs@[m as int] as int))));
        m = m + 1;
    }
    assert(cs@.take(cs@.len() as int) =~= cs@);
    let ghost ov = crate::models::texts(ops@);
    let has_none = crate::rules::texts_contain_exec(&ops, "None");
    proof {
        if has_none {
            let w = choose|w: int| 0 <= w < ops@.len() && #[trigger] ops@[w]@ == "None"@;
            assert(ov[w] == "None"@);
        } else if ov.contains("None"@) {
            let w = choose|w: int| 0 <= w < ov.len() && ov[w] == "None"@;
            assert(ops@[w]@ == "None"@);
        }
    }
    let ghost d0 = crate::models::texts(d@);
    let mut m: usize = 0;
    while m < ops.len()
        invariant
            m <= ops@.len(),
            ov == crate::models::texts(ops@),
            has_none == ov.contains("None"@),
            crate::models::texts(d@) == weak_ops(ov, m as int, d0),
        decreases ops.len() - m,
    {
        let op = ops[m].as_str();
        if str_eq(op, "in") {
            add_category_exec(d, "key-presence-only assertion");
        }
        if str_eq(op, "is not") && has_none {
            add_category_exec(d, "existence-only assertion");
        }
        m = m + 1;
    }
    let ghost d1 = crate::models::texts(d@);
    let mut m: usize = 0;
    while m < cs.len()
        invariant
            wf(*t),
            j < t.nodes@.len(),
            cs@ == children(*t, j as int),
            m <= cs@.len(),
            crate::models::texts(d@) == weak_types(*t, cs@, m as int, d1),
        decreases cs.len() - m,
    {
        proof {
            lemma_child_nested(*t, j as int, m as int);
        }
        if text_is(t, cs[m], "type") && m + 1 < cs.len() {
            proof {
                lemma_child_nested(*t, j as int, m + 1);
            }
            if text_is(t, cs[m + 1], "==") || text_is(t, cs[m + 1], "is") {
                add_category_exec(d, "type-only assertion");
            }
        }
        m = m + 1;
    }
}

/// The weak-assertion categories found in the subtree of node `i`.
fn detect_weak_assertions(t: &SyntaxTree, i: usize) -> (r: Vec<String>)
    requires
        wf(*t),
        i < t.nodes@.len(),
    ensures
        crate::models::texts(r@) == weak_details(*t, i as int, end(*t, i as int)),
{
    let e = t.nodes[i].end;
    let mut d: Vec<String> = Vec::new();
    let mut j: usize = i;
    while j < e
        invariant
            wf(*t),
            i <= j <= e,
            e == end(*t, i as int),
            e <= t.nodes@.len(),
            crate::models::texts(d@) == weak_details(*t, i as int, j as int),
        decreases e - j,
    {
        check_weak_call(t, j, &mut d);
        check_weak_comparison(t, j, &mut d);
        j = j + 1;
    }
    d
}

/// Following `object` and `value` children down from node `j` reaches a
/// name among `deps`.
pub open spec fn fixture_chain(t: SyntaxTree, j: int, deps: Seq<Seq<char>>) -> bool
    decreases t.nodes@.len() - j,
{
    if j < 0 || j >= t.nodes@.len() {
        false
    } else if kind(t, j) == "identifier"@ {
        deps.contains(text(t, j))
    } else if kind(t, j) == "attribute"@ || kind(t, j) == "subscript"@ {
        let f = if kind(t, j) == "attribute"@ {
            "object"@
        } else {
            "value"@
        };
        match field_child(t, j, f) {
            Some(c) => if j < c < t.nodes@.len() {
                fixture_chain(t, c, deps)
            } else {
                false
            },
            None => false,
        }
    } else {
        false
    }
}

/// The name among `deps` that the `object`/`value` chain from node `j`
/// reaches, or the empty text.
pub open spec fn fixture_root(t: SyntaxTree, j: int, deps: Seq<Seq<char>>) -> Seq<char>
    decreases t.nodes@.len() - j,
{
    if j < 0 || j >= t.nodes@.len() {
        Seq::empty()
    } else if kind(t, j) == "identifier"@ && deps.contains(text(t, j)) {
        text(t, j)
    } else if kind(t, j) == "attribute"@ || kind(t, j) == "subscript"@ {
        let f = if kind(t, j) == "attribute"@ {
            "object"@
        } else {
            "value"@
        };
        match field_child(t, j, f) {
            Some(c) => if j < c < t.nodes@.len() {
                fixture_root(t, c, deps)
            } else {
                Seq::empty()
            },
            None => Seq::empty(),
        }
    } else {
        Seq::empty()
    }
}

fn is_fixture_chain(t: &SyntaxTree, j: usize, deps: &Vec<String>) -> (r: bool)
    requires
        wf(*t),
        j < t.nodes@.len(),
    ensures
        r == fixture_chain(*t, j as int, crate::models::texts(deps@)),
    decreases t.nodes@.len() - j,
{
    if kind_is(t, j, "identifier") {
        let r = crate::rules::texts_contain_exec(deps, t.nodes[j].text.as_str());
        proof {
            lemma_texts_contain(deps@, text(*t, j as int));
        }
        r
    } else if kind_is(t, j, "attribute") || kind_is(t, j, "subscript") {
        let f = if kind_is(t, j, "attribute") {
            "object"
        } else {
            "value"
        };
        proof {
            reveal_strlit("object");
            reveal_strlit("value");
        }
        match field_child_exec(t, j, f) {
            Some(c) => is_fixture_chain(t, c, deps),
            None => false,
        }
    } else {
        false
    }
}

fn get_fixture_root(t: &SyntaxTree, j: usize, deps: &Vec<String>) -> (r: String)
    requires
        wf(*t),
        j < t.nodes@.len(),
    ensures
        r@ == fixture_root(*t, j as int, crate::models::texts(deps@)),
    decreases t.nodes@.len() - j,
{
    let is_id = kind_is(t, j, "identifier");
    if is_id && crate::rules::texts_contain_exec(deps, t.nodes[j].text.as_str()) {
        proof {
            lemma_texts_contain(deps@, text(*t, j as int));
        }
        t.nodes[j].text.clone()
    } else {
        proof {
            lemma_texts_contain(deps@, text(*t, j as int));
        }
        if kind_is(t, j, "attribute") || kind_is(t, j, "subscript") {
            let f = if kind_is(t, j, "attribute") {
                "object"
            } else {
                "value"
            };
            proof {
                reveal_strlit("object");
                reveal_strlit("value");
            }
            match field_child_exec(t, j, f) {
                Some(c) => get_fixture_root(t, c, deps),
                None => String::new(),
            }
        } else {
            String::new()
        }
    }
}

/// `texts_contain` over strings says the same as `contains` over their texts.
pub proof fn lemma_texts_contain(v: Seq<String>, x: Seq<char>)
    ensures
        crate::rules::texts_contain(v, x) == crate::models::texts(v).contains(x),
{
    let tv = crate::models::texts(v);
    if crate::rules::texts_contain(v, x) {
        let w = choose|w: int| 0 <= w < v.len() && #[trigger] v[w]@ == x;
        assert(tv[w] == x);
    }
    if tv.contains(x) {
        let w = choose|w: int| 0 <= w < tv.len() && tv[w] == x;
        assert(v[w]@ == x);
    }
}

/// `acc` with the name at node `n` added when it is a fixture dependency,
/// or the root of its chain when the chain reaches one.
pub open spec fn push_if_dep(t: SyntaxTree, n: int, deps: Seq<Seq<char>>, acc: Seq<Seq<char>>) -> Seq<Seq<char>> {
    if deps.contains(text(t, n)) {
        acc.push(text(t, n))
    } else if fixture_chain(t, n, deps) {
        acc.push(fixture_root(t, n, deps))
    } else {
        acc
    }
}

/// `acc` after the call `j` is checked for a mutating method called on a
/// fixture dependency.
pub open spec fn mutating_call(t: SyntaxTree, j: int, deps: Seq<Seq<char>>, acc: Seq<Seq<char>>) -> Seq<Seq<char>> {
    match call_function(t, j) {
        Some(f) => if kind(t, f) == "attribute"@ {
            match (field_child(t, f, "object"@), field_child(t, f, "attribute"@)) {
                (Some(o), Some(a)) => if mutating_methods().contains(text(t, a)) && (deps.contains(text(t, o))
                    || fixture_chain(t, o, deps)) {
                    acc.push(fixture_root(t, o, deps))
                } else {
                    acc
                },
                _ => acc,
            }
        } else {
            acc
        },
        None => acc,
    }
}

/// `acc` after the assignment target `l` is checked for a fixture
/// dependency written through a subscript or an attribute.
pub open spec fn assignment_target(t: SyntaxTree, l: int, deps: Seq<Seq<char>>, acc: Seq<Seq<char>>) -> Seq<Seq<char>> {
    let a1 = if kind(t, l) == "subscript"@ {
        match field_child(t, l, "value"@) {
            Some(v) => push_if_dep(t, v, deps, acc),
            None => acc,
        }
    } else {
        acc
    };
    if kind(t, l) == "attribute"@ {
        match field_child(t, l, "object"@) {
            Some(o) => push_if_dep(t, o, deps, a1),
            None => a1,
        }
    } else {
        a1
    }
}

/// `acc` after the children `cs` (the first `n`) of a `del` statement are
/// checked for fixture dependencies.
pub open spec fn deleted_deps(t: SyntaxTree, cs: Seq<usize>, n: int, deps: Seq<Seq<char>>, acc: Seq<Seq<char>>) -> Seq<Seq<char>>
    decreases n,
{
    if n <= 0 {
        acc
    } else {
        let p = deleted_deps(t, cs, n - 1, deps, acc);
        let tx = trim(text(t, cs[n - 1] as int));
        if deps.contains(tx) {
            p.push(tx)
        } else {
            p
        }
    }
}

/// `acc` after node `j` is checked for each kind of fixture mutation.
pub open spec fn mutation_step(t: SyntaxTree, j: int, deps: Seq<Seq<char>>, acc: Seq<Seq<char>>) -> Seq<Seq<char>> {
    let a1 = mutating_call(t, j, deps, acc);
    let a2 = if kind(t, j) == "assignment"@ {
        match field_child(t, j, "left"@) {
            Some(l) => assignment_target(t, l, deps, a1),
            None => a1,
        }
    } else {
        a1
    };
    if kind(t, j) == "delete_statement"@ {
        deleted_deps(t, children(t, j), children(t, j).len() as int, deps, a2)
    } else {
        a2
    }
}

/// The fixture dependencies mutated in the nodes `[a, b)`, in the order found.
pub open spec fn mutations(t: SyntaxTree, a: int, b: int, deps: Seq<Seq<char>>) -> Seq<Seq<char>>
    decreases b - a,
{
    if b <= a {
        Seq::empty()
    } else {
        mutation_step(t, b - 1, deps, mutations(t, a, b - 1, deps))
    }
}

fn push_if_fixture_dep(t: &SyntaxTree, n: usize, deps: &Vec<String>, acc: &mut Vec<String>)
    requires
        wf(*t),
        n < t.nodes@.len(),
    ensures
        crate::models::texts(final(acc)@) == push_if_dep(*t, n as int, crate::models::texts(deps@), crate::models::texts(old(acc)@)),
{
    let ghost before = crate::models::texts(acc@);
    proof {
        lemma_texts_contain(deps@, text(*t, n as int));
    }
    if crate::rules::texts_contain_exec(deps, t.nodes[n].text.as_str()) {
        acc.push(t.nodes[n].text.clone());
        assert(crate::models::texts(acc@) =~= before.push(text(*t, n as int)));
    } else if is_fixture_chain(t, n, deps) {
        let root = get_fixture_root(t, n, deps);
        acc.push(root);
        assert(crate::models::texts(acc@) =~= before.push(fixture_root(*t, n as int, crate::models::texts(deps@))));
    }
}

fn mutation_step_exec(t: &SyntaxTree, j: usize, deps: &Vec<String>, acc: &mut Vec<String>)
    requires
        wf(*t),
        j < t.nodes@.len(),
    ensures
        crate::models::texts(final(acc)@) == mutation_step(*t, j as int, crate::models::texts(deps@), crate::models::texts(old(acc)@)),
{
    let ghost dv = crate::models::texts(deps@);
    let ghost a0 = crate::models::texts(acc@);
    match call_function_exec(t, j) {
        Some(f) => {
            if kind_is(t, f, "attribute") {
                let o = field_child_exec(t, f, "object");
                let a = field_child_exec(t, f, "attribute");
                if o.is_some() && a.is_some() {
                    let o = o.unwrap();
                    let a = a.unwrap();
                    let is_mut = str_in(t.nodes[a].text.as_str(), &mutating_methods_list());
                    if is_mut {
                        proof {
                            lemma_texts_contain(deps@, text(*t, o as int));
                        }
                        if crate::rules::texts_contain_exec(deps, t.nodes[o].text.as_str()) || is_fixture_chain(t, o, deps) {
                            let root = get_fixture_root(t, o, deps);
                            let ghost before = crate::models::texts(acc@);
                            acc.push(root);
                            assert(crate::models::texts(acc@) =~= before.push(fixture_root(*t, o as int, dv)));
                        }
                    }
                }
            }
        },
        None => {},
    }
    assert(crate::models::texts(acc@) == mutating_call(*t, j as int, dv, a0));
    let ghost a1 = crate::models::texts(acc@);
    if kind_is(t, j, "assignment") {
        match field_child_exec(t, j, "left") {
            Some(l) => {
                if kind_is(t, l, "subscript") {
                    match field_child_exec(t, l, "value") {
                        Some(v) => push_if_fixture_dep(t, v, deps, acc),
                        None => {},
                    }
                }
                if kind_is(t, l, "attribute") {
                    match field_child_exec(t, l, "object") {
                        Some(o) => push_if_fixture_dep(t, o, deps, acc),
                        None => {},
                    }
                }
            },
            None => {},
        }
    }
    let ghost a2 = crate::models::texts(acc@);
    if kind_is(t, j, "delete_statement") {
        let cs = &t.nodes[j].children;
        let mut m: usize = 0;
        while m < cs.len()
            invariant
                wf(*t),
                j < t.nodes@.len(),
                cs@ == children(*t, j as int),
                m <= cs@.len(),
                dv == crate::models::texts(deps@),
                crate::models::texts(acc@) == deleted_deps(*t, cs@, m as int, dv, a2),
            decreases cs.len() - m,
        {
            proof {
                lemma_child_nested(*t, j as int, m as int);
            }
            let tx = str_trim(t.nodes[cs[m]].text.as_str());
            proof {
                lemma_texts_contain(deps@, tx@);
            }
            if crate::rules::texts_contain_exec(deps, tx.as_str()) {
                let ghost before = crate::models::texts(acc@);
                acc.push(tx);
                assert(crate::models::texts(acc@) =~= before.push(trim(text(*t, cs@[m as int] as int))));
            }
            m = m + 1;
        }
    }
}

/// The fixture dependencies that the subtree of node `i` mutates, in
/// increasing order without repeats.
fn detect_fixture_mutations(t: &SyntaxTree, i: usize, deps: &Vec<String>) -> (r: Vec<String>)
    requires
        wf(*t),
        i < t.nodes@.len(),
    ensures
        crate::models::texts(r@) == crate::grouping::sorted_set(mutations(*t, i as int, end(*t, i as int), crate::models::texts(deps@))),
{
    let e = t.nodes[i].end;
    let mut acc: Vec<String> = Vec::new();
    let mut j: usize = i;
    while j < e
        invariant
            wf(*t),
            i <= j <= e,
            e == end(*t, i as int),
            e <= t.nodes@.len(),
            crate::models::texts(acc@) == mutations(*t, i as int, j as int, crate::models::texts(deps@)),
        decreases e - j,
    {
        mutation_step_exec(t, j, deps, &mut acc);
        j = j + 1;
    }
    crate::grouping::sorted_unique_values(&acc)
}

/// The first string child among the first `n` children `cs`.
pub open spec fn first_string_child(t: SyntaxTree, cs: Seq<usize>, n: int) -> Option<int>
    decreases n,
{
    if n <= 0 {
        None
    } else {
        match first_string_child(t, cs, n - 1) {
            Some(x) => Some(x),
            None => if kind(t, cs[n - 1] as int) == "string"@ {
                Some(cs[n - 1] as int)
            } else {
                None
            },
        }
    }
}

/// The docstring found among the first `n` statements `cs` of a body: the
/// first string inside an expression statement.
pub open spec fn docstring_scan(t: SyntaxTree, cs: Seq<usize>, n: int) -> Option<int>
    decreases n,
{
    if n <= 0 {
        None
    } else {
        match docstring_scan(t, cs, n - 1) {
            Some(x) => Some(x),
            None => if kind(t, cs[n - 1] as int) == "expression_statement"@ {
                let gs = children(t, cs[n - 1] as int);
                first_string_child(t, gs, gs.len() as int)
            } else {
                None
            },
        }
    }
}

/// The docstring node of the function `f`.
pub open spec fn docstring_node(t: SyntaxTree, f: int) -> Option<int> {
    match field_child(t, f, "body"@) {
        Some(b) => docstring_scan(t, children(t, b), children(t, b).len() as int),
        None => None,
    }
}

/// The docstring of the function `f`.
pub open spec fn docstring_of(t: SyntaxTree, f: int) -> Option<Seq<char>> {
    match docstring_node(t, f) {
        Some(x) => Some(text(t, x)),
        None => None,
    }
}

proof fn lemma_first_string_child_stable(t: SyntaxTree, cs: Seq<usize>, a: int, b: int)
    requires
        0 <= a <= b,
        first_string_child(t, cs, a) is Some,
    ensures
        first_string_child(t, cs, b) == first_string_child(t, cs, a),
    decreases b - a,
{
    if a < b {
        lemma_first_string_child_stable(t, cs, a, b - 1);
    }
}

proof fn lemma_docstring_scan_stable(t: SyntaxTree, cs: Seq<usize>, a: int, b: int)
    requires
        0 <= a <= b,
        docstring_scan(t, cs, a) is Some,
    ensures
        docstring_scan(t, cs, b) == docstring_scan(t, cs, a),
    decreases b - a,
{
    if a < b {
        lemma_docstring_scan_stable(t, cs, a, b - 1);
    }
}

fn extract_docstring(t: &SyntaxTree, f: usize) -> (r: Option<String>)
    requires
        wf(*t),
        f < t.nodes@.len(),
    ensures
        crate::models::opt_text(r) == docstring_of(*t, f as int),
{
    let b = match field_child_exec(t, f, "body") {
        Some(b) => b,
        None => {
            return None;
        },
    };
    let cs = &t.nodes[b].children;
    let mut k: usize = 0;
    while k < cs.len()
        invariant
            wf(*t),
            b < t.nodes@.len(),
            field_child(*t, f as int, "body"@) == Some(b as int),
            cs@ == children(*t, b as int),
            k <= cs@.len(),
            docstring_scan(*t, cs@, k as int) is None,
        decreases cs.len() - k,
    {
        proof {
            lemma_child_nested(*t, b as int, k as int);
        }
        let c = cs[k];
        if kind_is(t, c, "expression_statement") {
            let gs = &t.nodes[c].children;
            let mut m: usize = 0;
            while m < gs.len()
                invariant
                    wf(*t),
                    c < t.nodes@.len(),
                    b < t.nodes@.len(),
                    k < cs@.len(),
                    cs@ == children(*t, b as int),
                    cs@[k as int] == c,
                    kind(*t, c as int) == "expression_statement"@,
                    docstring_scan(*t, cs@, k as int) is None,
                    field_child(*t, f as int, "body"@) == Some(b as int),
                    gs@ == children(*t, c as int),
                    m <= gs@.len(),
                    first_string_child(*t, gs@, m as int) is None,
                decreases gs.len() - m,
            {
                proof {
                    lemma_child_nested(*t, c as int, m as int);
                }
                if kind_is(t, gs[m], "string") {
                    proof {
                        assert(first_string_child(*t, gs@, m + 1) == Some(gs@[m as int] as int));
                        lemma_first_string_child_stable(*t, gs@, m + 1, gs@.len() as int);
                        assert(docstring_scan(*t, cs@, k + 1) == Some(gs@[m as int] as int));
                        lemma_docstring_scan_stable(*t, cs@, k + 1, cs@.len() as int);
                    }
                    return Some(t.nodes[gs[m]].text.clone());
                }
                m = m + 1;
            }
            assert(gs@.len() == children(*t, c as int).len());
            assert(docstring_scan(*t, cs@, k + 1) is None);
        }
        k = k + 1;
    }
    None
}

/// The name a parameter node declares, if it is one.
pub open spec fn param_name(t: SyntaxTree, c: int) -> Option<Seq<char>> {
    if kind(t, c) == "identifier"@ {
        Some(text(t, c))
    } else if kind(t, c) == "typed_parameter"@ || kind(t, c) == "default_parameter"@ || kind(t, c)
        == "typed_default_parameter"@ {
        match field_child(t, c, "name"@) {
            Some(n) => Some(text(t, n)),
            None => None,
        }
    } else {
        None
    }
}

/// The parameter names among the first `n` parameter nodes `cs`, without
/// `self` and `cls`.
pub open spec fn param_names(t: SyntaxTree, cs: Seq<usize>, n: int) -> Seq<Seq<char>>
    decreases n,
{
    if n <= 0 {
        Seq::empty()
    } else {
        let p = param_names(t, cs, n - 1);
        match param_name(t, cs[n - 1] as int) {
            Some(x) => if x != "self"@ && x != "cls"@ {
                p.push(x)
            } else {
                p
            },
            None => p,
        }
    }
}

/// The fixtures the function `f` asks for: its parameter names but `self`
/// and `cls`.
pub open spec fn fixture_deps_of(t: SyntaxTree, f: int) -> Seq<Seq<char>> {
    match field_child(t, f, "parameters"@) {
        Some(p) => param_names(t, children(t, p), children(t, p).len() as int),
        None => Seq::empty(),
    }
}

fn extract_fixture_deps(t: &SyntaxTree, f: usize) -> (r: Vec<String>)
    requires
        wf(*t),
        f < t.nodes@.len(),
    ensures
        crate::models::texts(r@) == fixture_deps_of(*t, f as int),
{
    let mut out: Vec<String> = Vec::new();
    let p = match field_child_exec(t, f, "parameters") {
        Some(p) => p,
        None => {
            return out;
        },
    };
    let cs = &t.nodes[p].children;
    let mut k: usize = 0;
    while k < cs.len()
        invariant
            wf(*t),
            p < t.nodes@.len(),
            cs@ == children(*t, p as int),
            k <= cs@.len(),
            crate::models::texts(out@) == param_names(*t, cs@, k as int),
        decreases cs.len() - k,
    {
        proof {
            lemma_child_nested(*t, p as int, k as int);
        }
        let c = cs[k];
        let name: Option<String> = if kind_is(t, c, "identifier") {
            Some(t.nodes[c].text.clone())
        } else if kind_is(t, c, "typed_parameter") || kind_is(t, c, "default_parameter") || kind_is(
            t,
            c,
            "typed_default_parameter",
        ) {
            match field_child_exec(t, c, "name") {
                Some(n) => Some(t.nodes[n].text.clone()),
                None => None,
            }
        } else {
            None
        };
        assert(crate::models::opt_text(name) == param_name(*t, c as int));
        match name {
            Some(x) => {
                if !str_eq(x.as_str(), "self") && !str_eq(x.as_str(), "cls") {
                    let ghost before = crate::models::texts(out@);
                    out.push(x);
                    assert(crate::models::texts(out@) =~= before.push(param_name(*t, c as int)->0));
                }
            },
            None => {},
        }
        k = k + 1;
    }
    out
}

/// Some child of `f` is the `async` keyword.
pub open spec fn is_async_def(t: SyntaxTree, f: int) -> bool {
    has_child_kind(t, f, "async"@)
}

/// The node that holds the decorators of `f`, given the node `p` it was
/// found under: `p` when it is a decorated definition, else `f` itself.
pub open spec fn decorator_holder(t: SyntaxTree, f: int, p: int) -> int {
    if kind(t, p) == "decorated_definition"@ {
        p
    } else {
        f
    }
}

/// The decorators among the first `n` children `cs`, in order.
pub open spec fn decorators_in(t: SyntaxTree, cs: Seq<usize>, n: int) -> Seq<int>
    decreases n,
{
    if n <= 0 {
        Seq::empty()
    } else {
        let d = decorators_in(t, cs, n - 1);
        if kind(t, cs[n - 1] as int) == "decorator"@ {
            d.push(cs[n - 1] as int)
        } else {
            d
        }
    }
}

/// The decorator nodes of `f` (found under `p`), in order.
pub open spec fn decorators_of(t: SyntaxTree, f: int, p: int) -> Seq<int> {
    let h = decorator_holder(t, f, p);
    decorators_in(t, children(t, h), children(t, h).len() as int)
}

/// The decorator nodes of `f` (found under `p`), in order.
fn get_decorators(t: &SyntaxTree, f: usize, p: usize) -> (r: Vec<usize>)
    requires
        wf(*t),
        f < t.nodes@.len(),
        p < t.nodes@.len(),
    ensures
        ints(r@) == decorators_of(*t, f as int, p as int),
        forall|k: int| 0 <= k < r@.len() ==> #[trigger] r@[k] < t.nodes@.len(),
{
    let h = if kind_is(t, p, "decorated_definition") {
        p
    } else {
        f
    };
    let cs = &t.nodes[h].children;
    let mut out: Vec<usize> = Vec::new();
    let mut k: usize = 0;
    while k < cs.len()
        invariant
            wf(*t),
            h < t.nodes@.len(),
            h as int == decorator_holder(*t, f as int, p as int),
            cs@ == children(*t, h as int),
            k <= cs@.len(),
            ints(out@) == decorators_in(*t, cs@, k as int),
            forall|m: int| 0 <= m < out@.len() ==> #[trigger] out@[m] < t.nodes@.len(),
        decreases cs.len() - k,
    {
        proof {
            lemma_child_nested(*t, h as int, k as int);
        }
        if kind_is(t, cs[k], "decorator") {
            let ghost before = ints(out@);
            out.push(cs[k]);
            assert(ints(out@) =~= before.push(cs@[k as int] as int));
        }
        k = k + 1;
    }
    out
}

/// The decorator names a parametrize decorator has.
pub open spec fn is_parametrize_name(name: Seq<char>) -> bool {
    name == "pytest.mark.parametrize"@ || name == "parametrize"@
}

/// The number of elements of a list or tuple node, with whether it holds a
/// comma: every child but brackets, commas, comments and extras counts.
pub open spec fn element_scan(t: SyntaxTree, cs: Seq<usize>, n: int) -> (nat, bool)
    decreases n,
{
    if n <= 0 {
        (0, false)
    } else {
        let (count, comma) = element_scan(t, cs, n - 1);
        let c = cs[n - 1] as int;
        let k = kind(t, c);
        if k == ","@ {
            (count, true)
        } else if k == "("@ || k == ")"@ || k == "["@ || k == "]"@ || k == "comment"@ {
            (count, comma)
        } else if !t.nodes@[c].is_extra {
            (count + 1, comma)
        } else {
            (count, comma)
        }
    }
}

/// The number of parametrize cases a list or tuple node gives: 0 when it is
/// empty and has no comma, else its element count and at least 1.
pub open spec fn element_cases(t: SyntaxTree, arg: int) -> nat {
    let (count, comma) = element_scan(t, children(t, arg), children(t, arg).len() as int);
    if count == 0 && !comma {
        0
    } else if count >= 1 {
        count
    } else {
        1
    }
}

/// The scan of an argument list for the parametrize values: commas seen so
/// far, and the cases of the first list or tuple after a comma.
pub open spec fn values_scan(t: SyntaxTree, cs: Seq<usize>, n: int) -> (nat, Option<nat>)
    decreases n,
{
    if n <= 0 {
        (0, None)
    } else {
        let (commas, found) = values_scan(t, cs, n - 1);
        let c = cs[n - 1] as int;
        if found is Some {
            (commas, found)
        } else if kind(t, c) == ","@ {
            (commas + 1, None)
        } else if commas >= 1 && (kind(t, c) == "list"@ || kind(t, c) == "tuple"@) {
            (commas, Some(element_cases(t, c)))
        } else {
            (commas, None)
        }
    }
}

/// The cases of the first argument list of the first call under the
/// decorator `d` that has one.
pub open spec fn first_arglist_cases(t: SyntaxTree, cs: Seq<usize>, n: int) -> Option<Option<nat>>
    decreases n,
{
    if n <= 0 {
        None
    } else {
        match first_arglist_cases(t, cs, n - 1) {
            Some(r) => Some(r),
            None => {
                let c = cs[n - 1] as int;
                if kind(t, c) == "call"@ {
                    let gs = children(t, c);
                    match first_arglist(t, gs, gs.len() as int) {
                        Some(al) => Some(values_scan(t, children(t, al), children(t, al).len() as int).1),
                        None => None,
                    }
                } else {
                    None
                }
            },
        }
    }
}

/// The first argument list among the first `n` nodes `gs`.
pub open spec fn first_arglist(t: SyntaxTree, gs: Seq<usize>, n: int) -> Option<int>
    decreases n,
{
    if n <= 0 {
        None
    } else {
        match first_arglist(t, gs, n - 1) {
            Some(x) => Some(x),
            None => if kind(t, gs[n - 1] as int) == "argument_list"@ {
                Some(gs[n - 1] as int)
            } else {
                None
            },
        }
    }
}

/// The number of parametrize cases read from the syntax of decorator `d`.
pub open spec fn ast_cases(t: SyntaxTree, d: int) -> Option<nat> {
    match first_arglist_cases(t, children(t, d), children(t, d).len() as int) {
        Some(r) => r,
        None => None,
    }
}

/// The number of parametrize cases of decorator `d`: from its syntax, else
/// from its text.
pub open spec fn decorator_cases(t: SyntaxTree, d: int) -> nat {
    match ast_cases(t, d) {
        Some(n) => n,
        None => parametrize_args(text(t, d)),
    }
}

/// The first parametrize decorator among the first `n` of `ds`.
pub open spec fn first_parametrize(t: SyntaxTree, ds: Seq<int>, n: int) -> Option<int>
    decreases n,
{
    if n <= 0 {
        None
    } else {
        match first_parametrize(t, ds, n - 1) {
            Some(d) => Some(d),
            None => if is_parametrize_name(decorator_name(text(t, ds[n - 1]))) {
                Some(ds[n - 1])
            } else {
                None
            },
        }
    }
}

/// Whether a test is parametrized, and with how many cases: those of its
/// first parametrize decorator.
pub open spec fn parametrize_of(t: SyntaxTree, ds: Seq<int>) -> (bool, Option<nat>) {
    match first_parametrize(t, ds, ds.len() as int) {
        Some(d) => (true, Some(decorator_cases(t, d))),
        None => (false, None),
    }
}

fn count_list_or_tuple_elements(t: &SyntaxTree, arg: usize) -> (r: usize)
    requires
        wf(*t),
        arg < t.nodes@.len(),
    ensures
        r == element_cases(*t, arg as int),
{
    let cs = &t.nodes[arg].children;
    let mut count: usize = 0;
    let mut comma = false;
    let mut k: usize = 0;
    while k < cs.len()
        invariant
            wf(*t),
            arg < t.nodes@.len(),
            cs@ == children(*t, arg as int),
            k <= cs@.len(),
            count <= k,
            element_scan(*t, cs@, k as int) == (count as nat, comma),
        decreases cs.len() - k,
    {
        proof {
            lemma_child_nested(*t, arg as int, k as int);
        }
        let c = cs[k];
        if kind_is(t, c, ",") {
            comma = true;
        } else if kind_is(t, c, "(") || kind_is(t, c, ")") || kind_is(t, c, "[") || kind_is(t, c, "]") || kind_is(
            t,
            c,
            "comment",
        ) {
        } else if !t.nodes[c].is_extra {
            count = count + 1;
        }
        k = k + 1;
    }
    if count == 0 && !comma {
        0
    } else if count >= 1 {
        count
    } else {
        1
    }
}

fn count_values_in_argument_list(t: &SyntaxTree, al: usize) -> (r: Option<usize>)
    requires
        wf(*t),
        al < t.nodes@.len(),
    ensures
        (match r {
            Some(n) => Some(n as nat),
            None => None::<nat>,
        }) == values_scan(*t, children(*t, al as int), children(*t, al as int).len() as int).1,
{
    let cs = &t.nodes[al].children;
    let mut commas: usize = 0;
    let mut k: usize = 0;
    while k < cs.len()
        invariant
            wf(*t),
            al < t.nodes@.len(),
            cs@ == children(*t, al as int),
            k <= cs@.len(),
            commas <= k,
            values_scan(*t, cs@, k as int) == (commas as nat, None::<nat>),
        decreases cs.len() - k,
    {
        proof {
            lemma_child_nested(*t, al as int, k as int);
        }
        let c = cs[k];
        if kind_is(t, c, ",") {
            commas = commas + 1;
        } else if commas >= 1 && (kind_is(t, c, "list") || kind_is(t, c, "tuple")) {
            let n = count_list_or_tuple_elements(t, c);
            proof {
                lemma_values_scan_found(*t, cs@, k + 1, cs@.len() as int);
            }
            return Some(n);
        }
        k = k + 1;
    }
    None
}

proof fn lemma_values_scan_found(t: SyntaxTree, cs: Seq<usize>, a: int, b: int)
    requires
        0 <= a <= b,
        values_scan(t, cs, a).1 is Some,
    ensures
        values_scan(t, cs, b) == values_scan(t, cs, a),
    decreases b - a,
{
    if a < b {
        lemma_values_scan_found(t, cs, a, b - 1);
    }
}

proof fn lemma_first_arglist_stable(t: SyntaxTree, gs: Seq<usize>, a: int, b: int)
    requires
        0 <= a <= b,
        first_arglist(t, gs, a) is Some,
    ensures
        first_arglist(t, gs, b) == first_arglist(t, gs, a),
    decreases b - a,
{
    if a < b {
        lemma_first_arglist_stable(t, gs, a, b - 1);
    }
}

proof fn lemma_first_arglist_cases_stable(t: SyntaxTree, cs: Seq<usize>, a: int, b: int)
    requires
        0 <= a <= b,
        first_arglist_cases(t, cs, a) is Some,
    ensures
        first_arglist_cases(t, cs, b) == first_arglist_cases(t, cs, a),
    decreases b - a,
{
    if a < b {
        lemma_first_arglist_cases_stable(t, cs, a, b - 1);
    }
}

/// The first argument list among the children of node `c`.
fn first_arglist_exec(t: &SyntaxTree, c: usize) -> (r: Option<usize>)
    requires
        wf(*t),
        c < t.nodes@.len(),
    ensures
        r is None <==> first_arglist(*t, children(*t, c as int), children(*t, c as int).len() as int) is None,
        r matches Some(al) ==> first_arglist(*t, children(*t, c as int), children(*t, c as int).len() as int)
            == Some(al as int) && al < t.nodes@.len(),
{
    let gs = &t.nodes[c].children;
    let mut m: usize = 0;
    while m < gs.len()
        invariant
            wf(*t),
            c < t.nodes@.len(),
            gs@ == children(*t, c as int),
            m <= gs@.len(),
            first_arglist(*t, gs@, m as int) is None,
        decreases gs.len() - m,
    {
        proof {
            lemma_child_nested(*t, c as int, m as int);
        }
        if kind_is(t, gs[m], "argument_list") {
            proof {
                assert(first_arglist(*t, gs@, m + 1) == Some(gs@[m as int] as int));
                lemma_first_arglist_stable(*t, gs@, m + 1, gs@.len() as int);
            }
            return Some(gs[m]);
        }
        m = m + 1;
    }
    None
}

fn count_parametrize_args_ast(t: &SyntaxTree, d: usize) -> (r: Option<usize>)
    requires
        wf(*t),
        d < t.nodes@.len(),
    ensures
        (match r {
            Some(n) => Some(n as nat),
            None => None::<nat>,
        }) == ast_cases(*t, d as int),
{
    let cs = &t.nodes[d].children;
    let mut k: usize = 0;
    while k < cs.len()
        invariant
            wf(*t),
            d < t.nodes@.len(),
            cs@ == children(*t, d as int),
            k <= cs@.len(),
            first_arglist_cases(*t, cs@, k as int) is None,
        decreases cs.len() - k,
    {
        proof {
            lemma_child_nested(*t, d as int, k as int);
        }
        let c = cs[k];
        if kind_is(t, c, "call") {
            match first_arglist_exec(t, c) {
                Some(al) => {
                    let r = count_values_in_argument_list(t, al);
                    proof {
                        lemma_first_arglist_cases_stable(*t, cs@, k + 1, cs@.len() as int);
                    }
                    return r;
                },
                None => {},
            }
        }
        k = k + 1;
    }
    None
}

/// Whether a test is parametrized, and with how many cases.
fn detect_parametrize(t: &SyntaxTree, ds: &Vec<usize>) -> (r: (bool, Option<usize>))
    requires
        wf(*t),
        forall|k: int| 0 <= k < ds@.len() ==> #[trigger] ds@[k] < t.nodes@.len(),
    ensures
        (r.0, match r.1 {
            Some(n) => Some(n as nat),
            None => None::<nat>,
        }) == parametrize_of(*t, ints(ds@)),
{
    let ghost dv = ints(ds@);
    let mut k: usize = 0;
    while k < ds.len()
        invariant
            wf(*t),
            forall|m: int| 0 <= m < ds@.len() ==> #[trigger] ds@[m] < t.nodes@.len(),
            dv == ints(ds@),
            k <= ds@.len(),
            first_parametrize(*t, dv, k as int) is None,
        decreases ds.len() - k,
    {
        let d = ds[k];
        let name = decorator_name_exec(t.nodes[d].text.as_str());
        if str_eq(name.as_str(), "pytest.mark.parametrize") || str_eq(name.as_str(), "parametrize") {
            proof {
                assert(first_parametrize(*t, dv, k + 1) == Some(d as int));
                lemma_first_parametrize_stable(*t, dv, k + 1, dv.len() as int);
            }
            let n = match count_parametrize_args_ast(t, d) {
                Some(n) => n,
                None => PythonParser::count_parametrize_args(t.nodes[d].text.as_str()),
            };
            return (true, Some(n));
        }
        k = k + 1;
    }
    (false, None)
}

proof fn lemma_first_parametrize_stable(t: SyntaxTree, ds: Seq<int>, a: int, b: int)
    requires
        0 <= a <= b,
        first_parametrize(t, ds, a) is Some,
    ensures
        first_parametrize(t, ds, b) == first_parametrize(t, ds, a),
    decreases b - a,
{
    if a < b {
        lemma_first_parametrize_stable(t, ds, a, b - 1);
    }
}

/// The list or tuple argument that holds the parametrize values among the
/// first `n` children `cs` of an argument list: the second list or tuple,
/// or the only one.
pub open spec fn values_arg_scan(t: SyntaxTree, cs: Seq<usize>, n: int) -> (nat, Option<int>)
    decreases n,
{
    if n <= 0 {
        (0, None)
    } else {
        let (count, last) = values_arg_scan(t, cs, n - 1);
        let c = cs[n - 1] as int;
        if count >= 2 {
            (count, last)
        } else if kind(t, c) == "list"@ || kind(t, c) == "tuple"@ {
            (count + 1, Some(c))
        } else {
            (count, last)
        }
    }
}

/// The texts of the elements of a list or tuple, trimmed, skipping brackets,
/// commas, comments and extras.
pub open spec fn element_texts(t: SyntaxTree, cs: Seq<usize>, n: int) -> Seq<Seq<char>>
    decreases n,
{
    if n <= 0 {
        Seq::empty()
    } else {
        let p = element_texts(t, cs, n - 1);
        let c = cs[n - 1] as int;
        let k = kind(t, c);
        if k == ","@ || k == "("@ || k == ")"@ || k == "["@ || k == "]"@ || k == "comment"@ || t.nodes@[c].is_extra {
            p
        } else {
            p.push(trim(text(t, c)))
        }
    }
}

/// The parametrize values under the first `n` calls `cs` of a decorator:
/// those of the first argument list that has a list or tuple argument.
pub open spec fn values_in_calls(t: SyntaxTree, cs: Seq<usize>, n: int) -> Option<Seq<Seq<char>>>
    decreases n,
{
    if n <= 0 {
        None
    } else {
        match values_in_calls(t, cs, n - 1) {
            Some(v) => Some(v),
            None => {
                let c = cs[n - 1] as int;
                if kind(t, c) == "call"@ {
                    let gs = children(t, c);
                    values_in_arglists(t, gs, gs.len() as int)
                } else {
                    None
                }
            },
        }
    }
}

/// The parametrize values of the first argument list among the first `n`
/// children `gs` of a call that has a list or tuple argument.
pub open spec fn values_in_arglists(t: SyntaxTree, gs: Seq<usize>, n: int) -> Option<Seq<Seq<char>>>
    decreases n,
{
    if n <= 0 {
        None
    } else {
        match values_in_arglists(t, gs, n - 1) {
            Some(v) => Some(v),
            None => {
                let g = gs[n - 1] as int;
                if kind(t, g) == "argument_list"@ {
                    match values_arg_scan(t, children(t, g), children(t, g).len() as int).1 {
                        Some(arg) => Some(element_texts(t, children(t, arg), children(t, arg).len() as int)),
                        None => None,
                    }
                } else {
                    None
                }
            },
        }
    }
}

/// The parametrize values of each parametrize decorator among `ds` that
/// gives some, in order.
pub open spec fn parametrize_values_of(t: SyntaxTree, ds: Seq<int>, n: int) -> Seq<Seq<Seq<char>>>
    decreases n,
{
    if n <= 0 {
        Seq::empty()
    } else {
        let p = parametrize_values_of(t, ds, n - 1);
        let d = ds[n - 1];
        if is_parametrize_name(decorator_name(text(t, d))) {
            match values_in_calls(t, children(t, d), children(t, d).len() as int) {
                Some(v) => p.push(v),
                None => p,
            }
        } else {
            p
        }
    }
}

proof fn lemma_values_arg_scan_stable(t: SyntaxTree, cs: Seq<usize>, a: int, b: int)
    requires
        0 <= a <= b,
        values_arg_scan(t, cs, a).0 >= 2,
    ensures
        values_arg_scan(t, cs, b) == values_arg_scan(t, cs, a),
    decreases b - a,
{
    if a < b {
        lemma_values_arg_scan_stable(t, cs, a, b - 1);
    }
}

fn values_arg_exec(t: &SyntaxTree, al: usize) -> (r: Option<usize>)
    requires
        wf(*t),
        al < t.nodes@.len(),
    ensures
        r is None <==> values_arg_scan(*t, children(*t, al as int), children(*t, al as int).len() as int).1 is None,
        r matches Some(a) ==> values_arg_scan(*t, children(*t, al as int), children(*t, al as int).len() as int).1
            == Some(a as int) && a < t.nodes@.len(),
{
    let cs = &t.nodes[al].children;
    let mut count: usize = 0;
    let mut last: Option<usize> = None;
    let mut k: usize = 0;
    while k < cs.len()
        invariant
            wf(*t),
            al < t.nodes@.len(),
            cs@ == children(*t, al as int),
            k <= cs@.len(),
            count <= 1,
            values_arg_scan(*t, cs@, k as int).0 == count,
            values_arg_scan(*t, cs@, k as int).1 == (match last {
                Some(a) => Some(a as int),
                None => None::<int>,
            }),
            last matches Some(a) ==> a < t.nodes@.len(),
        decreases cs.len() - k,
    {
        proof {
            lemma_child_nested(*t, al as int, k as int);
        }
        let c = cs[k];
        if kind_is(t, c, "list") || kind_is(t, c, "tuple") {
            count = count + 1;
            last = Some(c);
            if count == 2 {
                proof {
                    lemma_values_arg_scan_stable(*t, cs@, k + 1, cs@.len() as int);
                }
                return last;
            }
        }
        k = k + 1;
    }
    last
}

fn extract_text_values_from_node(t: &SyntaxTree, arg: usize) -> (r: Vec<String>)
    requires
        wf(*t),
        arg < t.nodes@.len(),
    ensures
        crate::models::texts(r@) == element_texts(*t, children(*t, arg as int), children(*t, arg as int).len() as int),
{
    let cs = &t.nodes[arg].children;
    let mut out: Vec<String> = Vec::new();
    let mut k: usize = 0;
    while k < cs.len()
        invariant
            wf(*t),
            arg < t.nodes@.len(),
            cs@ == children(*t, arg as int),
            k <= cs@.len(),
            crate::models::texts(out@) == element_texts(*t, cs@, k as int),
        decreases cs.len() - k,
    {
        proof {
            lemma_child_nested(*t, arg as int, k as int);
        }
        let c = cs[k];
        if !(kind_is(t, c, ",") || kind_is(t, c, "(") || kind_is(t, c, ")") || kind_is(t, c, "[") || kind_is(t, c, "]")
            || kind_is(t, c, "comment") || t.nodes[c].is_extra) {
            let s = str_trim(t.nodes[c].text.as_str());
            let ghost before = crate::models::texts(out@);
            out.push(s);
            assert(crate::models::texts(out@) =~= before.push(trim(text(*t, c as int))));
        }
        k = k + 1;
    }
    out
}

proof fn lemma_values_in_arglists_stable(t: SyntaxTree, gs: Seq<usize>, a: int, b: int)
    requires
        0 <= a <= b,
        values_in_arglists(t, gs, a) is Some,
    ensures
        values_in_arglists(t, gs, b) == values_in_arglists(t, gs, a),
    decreases b - a,
{
    if a < b {
        lemma_values_in_arglists_stable(t, gs, a, b - 1);
    }
}

proof fn lemma_values_in_calls_stable(t: SyntaxTree, cs: Seq<usize>, a: int, b: int)
    requires
        0 <= a <= b,
        values_in_calls(t, cs, a) is Some,
    ensures
        values_in_calls(t, cs, b) == values_in_calls(t, cs, a),
    decreases b - a,
{
    if a < b {
        lemma_values_in_calls_stable(t, cs, a, b - 1);
    }
}

/// The parametrize values of the decorator `d`, if it gives some.
fn extract_values_from_decorator_node(t: &SyntaxTree, d: usize) -> (r: Option<Vec<String>>)
    requires
        wf(*t),
        d < t.nodes@.len(),
    ensures
        (match r {
            Some(v) => Some(crate::models::texts(v@)),
            None => None::<Seq<Seq<char>>>,
        }) == values_in_calls(*t, children(*t, d as int), children(*t, d as int).len() as int),
{
    let cs = &t.nodes[d].children;
    let mut k: usize = 0;
    while k < cs.len()
        invariant
            wf(*t),
            d < t.nodes@.len(),
            cs@ == children(*t, d as int),
            k <= cs@.len(),
            values_in_calls(*t, cs@, k as int) is None,
        decreases cs.len() - k,
    {
        proof {
            lemma_child_nested(*t, d as int, k as int);
        }
        let c = cs[k];
        if kind_is(t, c, "call") {
            let gs = &t.nodes[c].children;
            let mut m: usize = 0;
            while m < gs.len()
                invariant
                    wf(*t),
                    c < t.nodes@.len(),
                    d < t.nodes@.len(),
                    k < cs@.len(),
                    cs@ == children(*t, d as int),
                    cs@[k as int] == c,
                    kind(*t, c as int) == "call"@,
                    values_in_calls(*t, cs@, k as int) is None,
                    gs@ == children(*t, c as int),
                    m <= gs@.len(),
                    values_in_arglists(*t, gs@, m as int) is None,
                decreases gs.len() - m,
            {
                proof {
                    lemma_child_nested(*t, c as int, m as int);
                }
                let g = gs[m];
                if kind_is(t, g, "argument_list") {
                    match values_arg_exec(t, g) {
                        Some(arg) => {
                            let v = extract_text_values_from_node(t, arg);
                            proof {
                                lemma_values_in_arglists_stable(*t, gs@, m + 1, gs@.len() as int);
                                lemma_values_in_calls_stable(*t, cs@, k + 1, cs@.len() as int);
                            }
                            return Some(v);
                        },
                        None => {},
                    }
                }
                m = m + 1;
            }
            assert(gs@.len() == children(*t, c as int).len());
        }
        k = k + 1;
    }
    None
}

/// The parametrize values of the decorators `ds`.
fn extract_parametrize_values(t: &SyntaxTree, ds: &Vec<usize>) -> (r: Vec<Vec<String>>)
    requires
        wf(*t),
        forall|k: int| 0 <= k < ds@.len() ==> #[trigger] ds@[k] < t.nodes@.len(),
    ensures
        r@.map_values(|v: Vec<String>| crate::models::texts(v@)) == parametrize_values_of(
            *t,
            ints(ds@),
            ds@.len() as int,
        ),
{
    let ghost dv = ints(ds@);
    let mut out: Vec<Vec<String>> = Vec::new();
    let mut k: usize = 0;
    while k < ds.len()
        invariant
            wf(*t),
            forall|m: int| 0 <= m < ds@.len() ==> #[trigger] ds@[m] < t.nodes@.len(),
            dv == ints(ds@),
            k <= ds@.len(),
            out@.map_values(|v: Vec<String>| crate::models::texts(v@)) == parametrize_values_of(*t, dv, k as int),
        decreases ds.len() - k,
    {
        let d = ds[k];
        let name = decorator_name_exec(t.nodes[d].text.as_str());
        if str_eq(name.as_str(), "pytest.mark.parametrize") || str_eq(name.as_str(), "parametrize") {
            match extract_values_from_decorator_node(t, d) {
                Some(v) => {
                    let ghost before = out@.map_values(|v: Vec<String>| crate::models::texts(v@));
                    let ghost vt = crate::models::texts(v@);
                    out.push(v);
                    assert(out@.map_values(|v: Vec<String>| crate::models::texts(v@)) =~= before.push(vt));
                },
                None => {},
            }
        }
        k = k + 1;
    }
    out
}

/// `ts` with the patch target `x` added when there is one, it is not there
/// yet, and (when `stdlib_only`) it names a standard-library module.
pub open spec fn add_target(ts: Seq<Seq<char>>, x: Option<Seq<char>>, stdlib_only: bool) -> Seq<Seq<char>> {
    match x {
        Some(tg) => if (!stdlib_only || stdlib_target(tg)) && !ts.contains(tg) {
            ts.push(tg)
        } else {
            ts
        },
        None => ts,
    }
}

/// The patch targets of the first `n` decorators `ds`.
pub open spec fn decorator_targets(t: SyntaxTree, ds: Seq<int>, n: int, stdlib_only: bool) -> Seq<Seq<char>>
    decreases n,
{
    if n <= 0 {
        Seq::empty()
    } else {
        add_target(decorator_targets(t, ds, n - 1, stdlib_only), patch_target(text(t, ds[n - 1])), stdlib_only)
    }
}

/// `acc` with the patch targets of the `patch(` calls at the first `n`
/// positions `ps` of the body text `bt`.
pub open spec fn body_targets(bt: Seq<char>, ps: Seq<int>, n: int, acc: Seq<Seq<char>>, stdlib_only: bool) -> Seq<Seq<char>>
    decreases n,
{
    if n <= 0 {
        acc
    } else {
        add_target(
            body_targets(bt, ps, n - 1, acc, stdlib_only),
            patch_target(bt.subrange(ps[n - 1], bt.len() as int)),
            stdlib_only,
        )
    }
}

/// The patch targets of a test: those its decorators name, then those of
/// the `patch(` calls of its body, each once, in order.
pub open spec fn patch_targets_of(t: SyntaxTree, ds: Seq<int>, body: Option<int>, stdlib_only: bool) -> Seq<Seq<char>> {
    let d = decorator_targets(t, ds, ds.len() as int, stdlib_only);
    match body {
        Some(b) => {
            let ps = match_positions(text(t, b), "patch("@, 0);
            body_targets(text(t, b), ps, ps.len() as int, d, stdlib_only)
        },
        None => d,
    }
}

/// Adding a target keeps what was there and, without the standard-library
/// filter, always holds the target afterwards; with the filter it adds
/// nothing else.
proof fn lemma_add_target_within(a: Seq<Seq<char>>, b: Seq<Seq<char>>, x: Option<Seq<char>>)
    requires
        forall|y: Seq<char>| #[trigger] a.contains(y) ==> b.contains(y),
    ensures
        forall|y: Seq<char>| #[trigger] add_target(a, x, true).contains(y) ==> add_target(b, x, false).contains(y),
{
    match x {
        Some(tg) => {
            let a1 = add_target(a, x, true);
            let b1 = add_target(b, x, false);
            assert(b1.contains(tg)) by {
                if !b.contains(tg) {
                    assert(b1[b.len() as int] == tg);
                }
            }
            assert forall|y: Seq<char>| #[trigger] a1.contains(y) implies b1.contains(y) by {
                let k = choose|k: int| 0 <= k < a1.len() && a1[k] == y;
                if k < a.len() {
                    assert(a[k] == y);
                    assert(a.contains(y));
                    assert(b.contains(y));
                    let m = choose|m: int| 0 <= m < b.len() && b[m] == y;
                    assert(b1[m] == y);
                } else {
                    assert(y == tg);
                }
            }
        },
        None => {},
    }
}

/// The standard-library targets of some decorators are among all their
/// targets.
proof fn lemma_decorator_targets_within(t: SyntaxTree, ds: Seq<int>, n: int)
    ensures
        forall|y: Seq<char>|
            #[trigger] decorator_targets(t, ds, n, true).contains(y) ==> decorator_targets(t, ds, n, false).contains(y),
    decreases n,
{
    if n > 0 {
        lemma_decorator_targets_within(t, ds, n - 1);
        lemma_add_target_within(
            decorator_targets(t, ds, n - 1, true),
            decorator_targets(t, ds, n - 1, false),
            patch_target(text(t, ds[n - 1])),
        );
    }
}

/// The standard-library targets of the body's `patch(` calls, added to
/// some targets, are among all of them added to more targets.
proof fn lemma_body_targets_within(bt: Seq<char>, ps: Seq<int>, n: int, a: Seq<Seq<char>>, b: Seq<Seq<char>>)
    requires
        forall|y: Seq<char>| #[trigger] a.contains(y) ==> b.contains(y),
    ensures
        forall|y: Seq<char>| #[trigger] body_targets(bt, ps, n, a, true).contains(y) ==> body_targets(bt, ps, n, b, false).contains(y),
    decreases n,
{
    if n > 0 {
        lemma_body_targets_within(bt, ps, n - 1, a, b);
        lemma_add_target_within(
            body_targets(bt, ps, n - 1, a, true),
            body_targets(bt, ps, n - 1, b, false),
            patch_target(bt.subrange(ps[n - 1], bt.len() as int)),
        );
    }
}

/// The standard-library patch targets of a test are among its patch
/// targets.
pub proof fn lemma_stdlib_targets_within(t: SyntaxTree, ds: Seq<int>, body: Option<int>)
    ensures
        forall|y: Seq<char>| #[trigger] patch_targets_of(t, ds, body, true).contains(y) ==> patch_targets_of(t, ds, body, false).contains(y),
{
    lemma_decorator_targets_within(t, ds, ds.len() as int);
    match body {
        Some(b) => {
            let ps = match_positions(text(t, b), "patch("@, 0);
            lemma_body_targets_within(
                text(t, b),
                ps,
                ps.len() as int,
                decorator_targets(t, ds, ds.len() as int, true),
                decorator_targets(t, ds, ds.len() as int, false),
            );
        },
        None => {},
    }
}

fn add_target_exec(ts: &mut Vec<String>, x: Option<String>, stdlib_only: bool)
    ensures
        crate::models::texts(final(ts)@) == add_target(crate::models::texts(old(ts)@), crate::models::opt_text(x), stdlib_only),
{
    match x {
        Some(tg) => {
            let keep = !stdlib_only || stdlib_target_exec(tg.as_str());
            if keep {
                let present = crate::rules::texts_contain_exec(ts, tg.as_str());
                proof {
                    lemma_texts_contain(ts@, tg@);
                }
                if !present {
                    let ghost before = crate::models::texts(ts@);
                    let ghost tv = tg@;
                    ts.push(tg);
                    assert(crate::models::texts(ts@) =~= before.push(tv));
                }
            }
        },
        None => {},
    }
}

fn detect_all_patch_targets(t: &SyntaxTree, ds: &Vec<usize>, body: Option<usize>, stdlib_only: bool) -> (r: Vec<String>)
    requires
        wf(*t),
        forall|k: int| 0 <= k < ds@.len() ==> #[trigger] ds@[k] < t.nodes@.len(),
        body matches Some(b) ==> b < t.nodes@.len(),
    ensures
        crate::models::texts(r@) == patch_targets_of(
            *t,
            ints(ds@),
            match body {
                Some(b) => Some(b as int),
                None => None::<int>,
            },
            stdlib_only,
        ),
{
    let ghost dv = ints(ds@);
    let mut out: Vec<String> = Vec::new();
    let mut k: usize = 0;
    while k < ds.len()
        invariant
            wf(*t),
            forall|m: int| 0 <= m < ds@.len() ==> #[trigger] ds@[m] < t.nodes@.len(),
            dv == ints(ds@),
            k <= ds@.len(),
            crate::models::texts(out@) == decorator_targets(*t, dv, k as int, stdlib_only),
        decreases ds.len() - k,
    {
        let x = extract_patch_target(t.nodes[ds[k]].text.as_str());
        add_target_exec(&mut out, x, stdlib_only);
        k = k + 1;
    }
    match body {
        Some(b) => {
            let bt = chars_of(t.nodes[b].text.as_str());
            let pat = chars_of("patch(");
            let ps = match_positions_exec(&bt, &pat);
            let ghost psv = ps@.map_values(|p: usize| p as int);
            let ghost d0 = crate::models::texts(out@);
            let mut m: usize = 0;
            while m < ps.len()
                invariant
                    m <= ps@.len(),
                    psv == ps@.map_values(|p: usize| p as int),
                    psv == match_positions(bt@, "patch("@, 0),
                    forall|q: int| 0 <= q < ps@.len() ==> #[trigger] ps@[q] <= bt@.len(),
                    crate::models::texts(out@) == body_targets(bt@, psv, m as int, d0, stdlib_only),
                decreases ps.len() - m,
            {
                assert(ps@[m as int] <= bt@.len());
                let after = string_of(&bt, ps[m], bt.len());
                let x = extract_patch_target(after.as_str());
                add_target_exec(&mut out, x, stdlib_only);
                m = m + 1;
            }
            out
        },
        None => out,
    }
}

/// The number of mock operations in the body text `bt`: matches of each
/// mock keyword, summed (and capped at the largest `usize`).
pub open spec fn mock_ops_upto(bt: Seq<char>, n: int) -> nat
    decreases n,
{
    if n <= 0 {
        0
    } else {
        mock_ops_upto(bt, n - 1) + match_count(bt, mock_keywords()[n - 1])
    }
}

pub open spec fn mock_ops(bt: Seq<char>) -> usize {
    let s = mock_ops_upto(bt, mock_keywords().len() as int);
    if s <= usize::MAX {
        s as usize
    } else {
        usize::MAX
    }
}

fn mock_ops_exec(bt: &str) -> (r: usize)
    ensures
        r == mock_ops(bt@),
{
    let cs = chars_of(bt);
    let kws = mock_keywords_list();
    let ghost kv = kws@.map_values(|s: &'static str| s@);
    let mut total: usize = 0;
    let mut capped = false;
    let mut k: usize = 0;
    while k < kws.len()
        invariant
            k <= kws@.len(),
            cs@ == bt@,
            kv == kws@.map_values(|s: &'static str| s@),
            kv == mock_keywords(),
            !capped ==> total == mock_ops_upto(bt@, k as int),
            capped ==> total == usize::MAX && mock_ops_upto(bt@, k as int) > usize::MAX,
        decreases kws.len() - k,
    {
        let pat = chars_of(kws[k]);
        assert(pat@ == kv[k as int]);
        let n = match_positions_exec(&cs, &pat).len();
        if !capped {
            if n <= usize::MAX - total {
                total = total + n;
            } else {
                total = usize::MAX;
                capped = true;
            }
        }
        k = k + 1;
    }
    total
}

/// The fixture scope that one decorator text sets, if it names one.
pub open spec fn scope_named(d: Seq<char>) -> Option<FixtureScope> {
    if !contains(d, "scope"@) {
        None
    } else if contains(d, "\"session\""@) || contains(d, "'session'"@) {
        Some(FixtureScope::Session)
    } else if contains(d, "\"package\""@) || contains(d, "'package'"@) {
        Some(FixtureScope::Package)
    } else if contains(d, "\"module\""@) || contains(d, "'module'"@) {
        Some(FixtureScope::Module)
    } else if contains(d, "\"class\""@) || contains(d, "'class'"@) {
        Some(FixtureScope::Class)
    } else {
        None
    }
}

/// The scope the first of the first `n` decorator texts that names one sets.
pub open spec fn scope_scan(ds: Seq<Seq<char>>, n: int) -> Option<FixtureScope>
    decreases n,
{
    if n <= 0 {
        None
    } else {
        match scope_scan(ds, n - 1) {
            Some(s) => Some(s),
            None => scope_named(ds[n - 1]),
        }
    }
}

/// The scope of a fixture with the given decorator texts (function scope
/// when none names one).
pub open spec fn fixture_scope_of(ds: Seq<Seq<char>>) -> FixtureScope {
    match scope_scan(ds, ds.len() as int) {
        Some(s) => s,
        None => FixtureScope::Function,
    }
}

proof fn lemma_scope_scan_stable(ds: Seq<Seq<char>>, a: int, b: int)
    requires
        0 <= a <= b,
        scope_scan(ds, a) is Some,
    ensures
        scope_scan(ds, b) == scope_scan(ds, a),
    decreases b - a,
{
    if a < b {
        lemma_scope_scan_stable(ds, a, b - 1);
    }
}

fn extract_fixture_scope(ds: &Vec<String>) -> (r: FixtureScope)
    ensures
        r == fixture_scope_of(crate::models::texts(ds@)),
{
    let ghost dv = crate::models::texts(ds@);
    let mut k: usize = 0;
    while k < ds.len()
        invariant
            k <= ds@.len(),
            dv == crate::models::texts(ds@),
            scope_scan(dv, k as int) is None,
        decreases ds.len() - k,
    {
        let d = ds[k].as_str();
        assert(dv[k as int] == d@);
        let s: Option<FixtureScope> = if !str_contains(d, "scope") {
            None
        } else if str_contains(d, "\"session\"") || str_contains(d, "'session'") {
            Some(FixtureScope::Session)
        } else if str_contains(d, "\"package\"") || str_contains(d, "'package'") {
            Some(FixtureScope::Package)
        } else if str_contains(d, "\"module\"") || str_contains(d, "'module'") {
            Some(FixtureScope::Module)
        } else if str_contains(d, "\"class\"") || str_contains(d, "'class'") {
            Some(FixtureScope::Class)
        } else {
            None
        };
        if s.is_some() {
            proof {
                lemma_scope_scan_stable(dv, k + 1, dv.len() as int);
            }
            return s.unwrap();
        }
        k = k + 1;
    }
    FixtureScope::Function
}

/// Some child of node `x` is a `try` statement with a block that yields.
pub open spec fn try_wrapping_yield(t: SyntaxTree, x: int) -> bool {
    exists|k: int| 0 <= k < children(t, x).len() && #[trigger] try_yield_at(t, children(t, x)[k] as int)
}

/// Node `c` is a `try` statement with a block (or suite) that yields.
pub open spec fn try_yield_at(t: SyntaxTree, c: int) -> bool {
    kind(t, c) == "try_statement"@ && exists|m: int|
        0 <= m < children(t, c).len() && #[trigger] yielding_block_at(t, children(t, c)[m] as int)
}

/// Node `g` is a block or suite that holds a `yield`.
pub open spec fn yielding_block_at(t: SyntaxTree, g: int) -> bool {
    (kind(t, g) == "block"@ || kind(t, g) == "suite"@) && has_kind(t, g, "yield"@)
}

/// Some child of node `x` is a `with` statement that holds a `yield`.
pub open spec fn with_wrapping_yield(t: SyntaxTree, x: int) -> bool {
    exists|k: int| 0 <= k < children(t, x).len() && #[trigger] with_yield_at(t, children(t, x)[k] as int)
}

pub open spec fn with_yield_at(t: SyntaxTree, c: int) -> bool {
    kind(t, c) == "with_statement"@ && has_kind(t, c, "yield"@)
}

fn yielding_block_exec(t: &SyntaxTree, g: usize) -> (r: bool)
    requires
        wf(*t),
        g < t.nodes@.len(),
    ensures
        r == yielding_block_at(*t, g as int),
{
    (kind_is(t, g, "block") || kind_is(t, g, "suite")) && has_node_kind(t, g, "yield")
}

fn has_try_wrapping_yield(t: &SyntaxTree, c: usize) -> (r: bool)
    requires
        wf(*t),
        c < t.nodes@.len(),
    ensures
        r == try_yield_at(*t, c as int),
{
    if !kind_is(t, c, "try_statement") {
        return false;
    }
    let gs = &t.nodes[c].children;
    let mut m: usize = 0;
    while m < gs.len()
        invariant
            wf(*t),
            c < t.nodes@.len(),
            kind(*t, c as int) == "try_statement"@,
            gs@ == children(*t, c as int),
            m <= gs@.len(),
            forall|q: int| 0 <= q < m ==> !#[trigger] yielding_block_at(*t, gs@[q] as int),
        decreases gs.len() - m,
    {
        proof {
            lemma_child_nested(*t, c as int, m as int);
        }
        if yielding_block_exec(t, gs[m]) {
            assert(yielding_block_at(*t, children(*t, c as int)[m as int] as int));
            return true;
        }
        m = m + 1;
    }
    false
}

fn wrapping_yield_exec(t: &SyntaxTree, x: usize) -> (r: bool)
    requires
        wf(*t),
        x < t.nodes@.len(),
    ensures
        r == (try_wrapping_yield(*t, x as int) || with_wrapping_yield(*t, x as int)),
{
    let cs = &t.nodes[x].children;
    let mut k: usize = 0;
    while k < cs.len()
        invariant
            wf(*t),
            x < t.nodes@.len(),
            cs@ == children(*t, x as int),
            k <= cs@.len(),
            forall|q: int| 0 <= q < k ==> !#[trigger] try_yield_at(*t, cs@[q] as int),
        decreases cs.len() - k,
    {
        proof {
            lemma_child_nested(*t, x as int, k as int);
        }
        if has_try_wrapping_yield(t, cs[k]) {
            assert(try_yield_at(*t, children(*t, x as int)[k as int] as int));
            return true;
        }
        k = k + 1;
    }
    let mut k: usize = 0;
    while k < cs.len()
        invariant
            wf(*t),
            x < t.nodes@.len(),
            cs@ == children(*t, x as int),
            k <= cs@.len(),
            !try_wrapping_yield(*t, x as int),
            forall|q: int| 0 <= q < k ==> !#[trigger] with_yield_at(*t, cs@[q] as int),
        decreases cs.len() - k,
    {
        proof {
            lemma_child_nested(*t, x as int, k as int);
        }
        let c = cs[k];
        if kind_is(t, c, "with_statement") && has_node_kind(t, c, "yield") {
            assert(with_yield_at(*t, children(*t, x as int)[k as int] as int));
            return true;
        }
        k = k + 1;
    }
    false
}

/// The body `b` of a fixture shows that it cleans up after itself.
pub open spec fn cleanup_pattern(t: SyntaxTree, b: int) -> bool {
    let bt = text(t, b);
    (exists|k: int| 0 <= k < cleanup_texts().len() && contains(bt, #[trigger] cleanup_texts()[k])) || contains(
        bt,
        "addfinalizer"@,
    ) || contains(bt, "request.addfinalizer"@) || contains(bt, "mock.patch"@) || contains(bt, "patch("@)
        || contains(bt, "tmp_path"@) || contains(bt, "tmpdir"@) || try_wrapping_yield(t, b) || with_wrapping_yield(t, b)
}

fn detect_cleanup_pattern(t: &SyntaxTree, b: usize) -> (r: bool)
    requires
        wf(*t),
        b < t.nodes@.len(),
    ensures
        r == cleanup_pattern(*t, b as int),
{
    let bt = t.nodes[b].text.as_str();
    let l = cleanup_texts_list();
    let any = str_contains_any(bt, &l);
    proof {
        assert(l@.map_values(|s: &'static str| s@) == cleanup_texts());
        if any {
            let k = choose|k: int| 0 <= k < l@.len() && contains(bt@, #[trigger] l@[k]@);
            assert(cleanup_texts()[k] == l@[k]@);
        }
        if exists|k: int| 0 <= k < cleanup_texts().len() && contains(bt@, #[trigger] cleanup_texts()[k]) {
            let k = choose|k: int| 0 <= k < cleanup_texts().len() && contains(bt@, #[trigger] cleanup_texts()[k]);
            assert(cleanup_texts()[k] == l@[k]@);
        }
    }
    any || str_contains(bt, "addfinalizer") || str_contains(bt, "request.addfinalizer") || str_contains(
        bt,
        "mock.patch",
    ) || str_contains(bt, "patch(") || str_contains(bt, "tmp_path") || str_contains(bt, "tmpdir")
        || wrapping_yield_exec(t, b)
}

/// The call `c` builds a value that can be changed in place: a mutable
/// collection, or a class (by its capitalized name) that is not a frozen
/// dataclass.
pub open spec fn mutable_call(t: SyntaxTree, c: int, frozen: Seq<Seq<char>>) -> bool {
    match field_child(t, c, "function"@) {
        Some(f) => {
            let name = text(t, f);
            if immutable_constructors().contains(name) {
                false
            } else if mutable_constructors().contains(name) {
                true
            } else if name.len() > 0 && uppercase_char(name[0]) {
                !frozen.contains(split(name, '.').last())
            } else if kind(t, f) == "attribute"@ {
                match field_child(t, f, "attribute"@) {
                    Some(a) => text(t, a).len() > 0 && uppercase_char(text(t, a)[0]) && !frozen.contains(text(t, a)),
                    None => false,
                }
            } else {
                false
            }
        },
        None => false,
    }
}

/// Node `c` is a value that can be changed in place.
pub open spec fn mutable_node(t: SyntaxTree, c: int, frozen: Seq<Seq<char>>) -> bool {
    kind(t, c) == "list"@ || kind(t, c) == "dictionary"@ || kind(t, c) == "set"@ || (kind(t, c) == "call"@
        && mutable_call(t, c, frozen))
}

/// Node `j` returns a value that can be changed in place.
pub open spec fn mutable_return_at(t: SyntaxTree, j: int, frozen: Seq<Seq<char>>) -> bool {
    kind(t, j) == "return_statement"@ && exists|k: int|
        0 <= k < children(t, j).len() && #[trigger] mutable_node(t, children(t, j)[k] as int, frozen)
}

/// The subtree of node `i` returns a value that can be changed in place.
pub open spec fn has_mutable_return(t: SyntaxTree, i: int, frozen: Seq<Seq<char>>) -> bool {
    exists|j: int| in_subtree(t, i, j) && #[trigger] mutable_return_at(t, j, frozen)
}

fn is_mutable_call_node(t: &SyntaxTree, c: usize, frozen: &Vec<String>) -> (r: bool)
    requires
        wf(*t),
        c < t.nodes@.len(),
    ensures
        r == mutable_call(*t, c as int, crate::models::texts(frozen@)),
{
    let f = match field_child_exec(t, c, "function") {
        Some(f) => f,
        None => {
            return false;
        },
    };
    let name = t.nodes[f].text.as_str();
    if str_in(name, &immutable_constructors_list()) {
        return false;
    }
    if str_in(name, &mutable_constructors_list()) {
        return true;
    }
    let cs = chars_of(name);
    if cs.len() > 0 && is_uppercase(cs[0]) {
        let pieces = split_exec(&cs, '.');
        let last = string_of_all(&pieces[pieces.len() - 1]);
        proof {
            lemma_texts_contain(frozen@, last@);
        }
        return !crate::rules::texts_contain_exec(frozen, last.as_str());
    }
    if kind_is(t, f, "attribute") {
        match field_child_exec(t, f, "attribute") {
            Some(a) => {
                let an = chars_of(t.nodes[a].text.as_str());
                if an.len() > 0 && is_uppercase(an[0]) {
                    proof {
                        lemma_texts_contain(frozen@, text(*t, a as int));
                    }
                    !crate::rules::texts_contain_exec(frozen, t.nodes[a].text.as_str())
                } else {
                    false
                }
            },
            None => false,
        }
    } else {
        false
    }
}

fn mutable_return_at_exec(t: &SyntaxTree, j: usize, frozen: &Vec<String>) -> (r: bool)
    requires
        wf(*t),
        j < t.nodes@.len(),
    ensures
        r == mutable_return_at(*t, j as int, crate::models::texts(frozen@)),
{
    if !kind_is(t, j, "return_statement") {
        return false;
    }
    let cs = &t.nodes[j].children;
    let mut k: usize = 0;
    while k < cs.len()
        invariant
            wf(*t),
            j < t.nodes@.len(),
            kind(*t, j as int) == "return_statement"@,
            cs@ == children(*t, j as int),
            k <= cs@.len(),
            forall|q: int| 0 <= q < k ==> !#[trigger] mutable_node(*t, cs@[q] as int, crate::models::texts(frozen@)),
        decreases cs.len() - k,
    {
        proof {
            lemma_child_nested(*t, j as int, k as int);
        }
        let c = cs[k];
        let m = kind_is(t, c, "list") || kind_is(t, c, "dictionary") || kind_is(t, c, "set") || (kind_is(t, c, "call")
            && is_mutable_call_node(t, c, frozen));
        if m {
            assert(mutable_node(*t, children(*t, j as int)[k as int] as int, crate::models::texts(frozen@)));
            return true;
        }
        k = k + 1;
    }
    false
}

fn has_mutable_return_in_body(t: &SyntaxTree, i: usize, frozen: &Vec<String>) -> (r: bool)
    requires
        wf(*t),
        i < t.nodes@.len(),
    ensures
        r == has_mutable_return(*t, i as int, crate::models::texts(frozen@)),
{
    let e = t.nodes[i].end;
    let mut j: usize = i;
    while j < e
        invariant
            wf(*t),
            i <= j <= e,
            e == end(*t, i as int),
            e <= t.nodes@.len(),
            forall|m: int| i <= m < j ==> !#[trigger] mutable_return_at(*t, m, crate::models::texts(frozen@)),
        decreases e - j,
    {
        if mutable_return_at_exec(t, j, frozen) {
            return true;
        }
        j = j + 1;
    }
    false
}

/// The class of a value negated.
pub open spec fn negated(c: LiteralClass) -> LiteralClass {
    LiteralClass { nan: c.nan, above: c.below, below: c.above }
}

/// A numeric argument node `c` of a sleep call: a number, or a number under
/// a unary minus; with whether it is negated, the literal node, and the
/// class of the value it gives.
pub open spec fn sleep_arg_at(t: SyntaxTree, c: int) -> Option<(bool, int, LiteralClass)> {
    if kind(t, c) == "integer"@ || kind(t, c) == "float"@ {
        match literal_class(text(t, c)) {
            Some(cl) => Some((false, c, cl)),
            None => None,
        }
    } else if kind(t, c) == "unary_operator"@ && field_text_is(t, c, "operator"@, "-"@) {
        match field_child(t, c, "argument"@) {
            Some(o) => match literal_class(text(t, o)) {
                Some(cl) => Some((true, o, negated(cl))),
                None => None,
            },
            None => None,
        }
    } else {
        None
    }
}

/// The first numeric argument among the first `n` argument nodes `cs`.
pub open spec fn sleep_arg_scan(t: SyntaxTree, cs: Seq<usize>, n: int) -> Option<(bool, int, LiteralClass)>
    decreases n,
{
    if n <= 0 {
        None
    } else {
        match sleep_arg_scan(t, cs, n - 1) {
            Some(x) => Some(x),
            None => sleep_arg_at(t, cs[n - 1] as int),
        }
    }
}

/// The numeric argument that the sleep call `j` is read with, if any.
pub open spec fn own_sleep(t: SyntaxTree, j: int) -> Option<(bool, int, LiteralClass)> {
    if sleep_call_at(t, j) {
        match field_child(t, j, "arguments"@) {
            Some(a) => sleep_arg_scan(t, children(t, a), children(t, a).len() as int),
            None => None,
        }
    } else {
        None
    }
}

/// The class of `own_sleep`.
pub open spec fn own_sleep_class(t: SyntaxTree, j: int) -> Option<LiteralClass> {
    match own_sleep(t, j) {
        Some(x) => Some(x.2),
        None => None,
    }
}

/// The running largest sleep value when `v` is met after `acc`: a value
/// replaces the current one only when it is greater, so a first value that
/// is not a number stays, and a later one is passed over.
pub open spec fn sleep_max(acc: Option<LiteralClass>, v: Option<LiteralClass>) -> Option<LiteralClass> {
    match (acc, v) {
        (_, None) => acc,
        (None, Some(x)) => Some(x),
        (Some(a), Some(x)) => if a.nan || x.nan {
            Some(a)
        } else {
            Some(LiteralClass { nan: false, above: a.above || x.above, below: a.below && x.below })
        },
    }
}

/// The largest sleep value of the subtree of node `i`: the node's own,
/// then that of each child's subtree in order.
pub open spec fn sleep_fold(t: SyntaxTree, i: int) -> Option<LiteralClass>
    decreases t.nodes@.len() - i, 1int, 0int,
{
    sleep_fold_children(t, i, children(t, i), children(t, i).len() as int)
}

/// The largest sleep value of node `i` and the subtrees of the first `n`
/// of its children `cs`.
pub open spec fn sleep_fold_children(t: SyntaxTree, i: int, cs: Seq<usize>, n: int) -> Option<LiteralClass>
    decreases t.nodes@.len() - i, 0int, n,
{
    if n <= 0 {
        own_sleep_class(t, i)
    } else {
        let prev = sleep_fold_children(t, i, cs, n - 1);
        let c = cs[n - 1] as int;
        if i < c < t.nodes@.len() {
            sleep_max(prev, sleep_fold(t, c))
        } else {
            prev
        }
    }
}

proof fn lemma_sleep_arg_scan_stable(t: SyntaxTree, cs: Seq<usize>, a: int, b: int)
    requires
        0 <= a <= b,
        sleep_arg_scan(t, cs, a) is Some,
    ensures
        sleep_arg_scan(t, cs, b) == sleep_arg_scan(t, cs, a),
    decreases b - a,
{
    if a < b {
        lemma_sleep_arg_scan_stable(t, cs, a, b - 1);
    }
}

fn extract_sleep_arg(t: &SyntaxTree, c: usize) -> (r: Option<(bool, usize, LiteralClass)>)
    requires
        wf(*t),
        c < t.nodes@.len(),
    ensures
        (match r {
            Some(x) => Some((x.0, x.1 as int, x.2)),
            None => None::<(bool, int, LiteralClass)>,
        }) == sleep_arg_at(*t, c as int),
        r matches Some(x) ==> x.1 < t.nodes@.len(),
{
    if kind_is(t, c, "integer") || kind_is(t, c, "float") {
        match literal_class_exec(t.nodes[c].text.as_str()) {
            Some(cl) => Some((false, c, cl)),
            None => None,
        }
    } else if kind_is(t, c, "unary_operator") && field_text_is_exec(t, c, "operator", "-") {
        match field_child_exec(t, c, "argument") {
            Some(o) => match literal_class_exec(t.nodes[o].text.as_str()) {
                Some(cl) => Some((true, o, LiteralClass { nan: cl.nan, above: cl.below, below: cl.above })),
                None => None,
            },
            None => None,
        }
    } else {
        None
    }
}

fn own_sleep_exec(t: &SyntaxTree, j: usize) -> (r: Option<(bool, usize, LiteralClass)>)
    requires
        wf(*t),
        j < t.nodes@.len(),
    ensures
        (match r {
            Some(x) => Some((x.0, x.1 as int, x.2)),
            None => None::<(bool, int, LiteralClass)>,
        }) == own_sleep(*t, j as int),
        r matches Some(x) ==> x.1 < t.nodes@.len(),
{
    if !is_sleep_call(t, j) {
        return None;
    }
    let a = match field_child_exec(t, j, "arguments") {
        Some(a) => a,
        None => {
            return None;
        },
    };
    let cs = &t.nodes[a].children;
    let mut k: usize = 0;
    while k < cs.len()
        invariant
            wf(*t),
            a < t.nodes@.len(),
            sleep_call_at(*t, j as int),
            field_child(*t, j as int, "arguments"@) == Some(a as int),
            cs@ == children(*t, a as int),
            k <= cs@.len(),
            sleep_arg_scan(*t, cs@, k as int) is None,
        decreases cs.len() - k,
    {
        proof {
            lemma_child_nested(*t, a as int, k as int);
        }
        match extract_sleep_arg(t, cs[k]) {
            Some(x) => {
                proof {
                    lemma_sleep_arg_scan_stable(*t, cs@, k + 1, cs@.len() as int);
                }
                return Some(x);
            },
            None => {},
        }
        k = k + 1;
    }
    None
}

fn sleep_max_exec(acc: Option<LiteralClass>, v: Option<LiteralClass>) -> (r: Option<LiteralClass>)
    ensures
        r == sleep_max(acc, v),
{
    match (acc, v) {
        (_, None) => acc,
        (None, Some(x)) => Some(x),
        (Some(a), Some(x)) => if a.nan || x.nan {
            Some(a)
        } else {
            Some(LiteralClass { nan: false, above: a.above || x.above, below: a.below && x.below })
        },
    }
}

/// The largest sleep value of the subtree of node `i`.
fn find_sleep_value(t: &SyntaxTree, i: usize) -> (r: Option<LiteralClass>)
    requires
        wf(*t),
        i < t.nodes@.len(),
    ensures
        r == sleep_fold(*t, i as int),
    decreases t.nodes@.len() - i,
{
    let mut acc: Option<LiteralClass> = match own_sleep_exec(t, i) {
        Some(x) => Some(x.2),
        None => None,
    };
    let cs = &t.nodes[i].children;
    let mut k: usize = 0;
    while k < cs.len()
        invariant
            wf(*t),
            i < t.nodes@.len(),
            cs@ == children(*t, i as int),
            k <= cs@.len(),
            acc == sleep_fold_children(*t, i as int, cs@, k as int),
        decreases cs.len() - k,
    {
        proof {
            lemma_child_nested(*t, i as int, k as int);
        }
        let c = cs[k];
        let sub = find_sleep_value(t, c);
        acc = sleep_max_exec(acc, sub);
        k = k + 1;
    }
    acc
}

/// The sleep literals of the nodes `[a, b)`, in order.
pub open spec fn sleep_literals(t: SyntaxTree, a: int, b: int) -> Seq<(bool, Seq<char>)>
    decreases b - a,
{
    if b <= a {
        Seq::empty()
    } else {
        let p = sleep_literals(t, a, b - 1);
        match own_sleep(t, b - 1) {
            Some(x) => p.push((x.0, text(t, x.1))),
            None => p,
        }
    }
}

/// The view of sleep literals.
pub open spec fn literal_views(v: Seq<SleepLiteral>) -> Seq<(bool, Seq<char>)> {
    v.map_values(|l: SleepLiteral| (l.negative, l.text@))
}

fn sleep_literals_exec(t: &SyntaxTree, i: usize) -> (r: Vec<SleepLiteral>)
    requires
        wf(*t),
        i < t.nodes@.len(),
    ensures
        literal_views(r@) == sleep_literals(*t, i as int, end(*t, i as int)),
{
    let e = t.nodes[i].end;
    let mut out: Vec<SleepLiteral> = Vec::new();
    let mut j: usize = i;
    while j < e
        invariant
            wf(*t),
            i <= j <= e,
            e == end(*t, i as int),
            e <= t.nodes@.len(),
            literal_views(out@) == sleep_literals(*t, i as int, j as int),
        decreases e - j,
    {
        match own_sleep_exec(t, j) {
            Some(x) => {
                let ghost before = literal_views(out@);
                out.push(SleepLiteral { negative: x.0, text: t.nodes[x.1].text.clone() });
                assert(literal_views(out@) =~= before.push((x.0, text(*t, x.1 as int))));
            },
            None => {},
        }
        j = j + 1;
    }
    out
}

/// Index pairs as integers.
pub open spec fn int_pairs(v: Seq<(usize, usize)>) -> Seq<(int, int)> {
    v.map_values(|q: (usize, usize)| (q.0 as int, q.1 as int))
}

/// Indices as integers.
pub open spec fn ints(v: Seq<usize>) -> Seq<int> {
    v.map_values(|x: usize| x as int)
}

/// The functions found directly under node `x` among the first `n` of its
/// children `cs` (with the node each hangs under), and the classes found
/// there to visit later.
pub open spec fn fn_scan(t: SyntaxTree, x: int, cs: Seq<usize>, n: int) -> (Seq<(int, int)>, Seq<int>)
    decreases n,
{
    if n <= 0 {
        (Seq::empty(), Seq::empty())
    } else {
        let (fs, cl) = fn_scan(t, x, cs, n - 1);
        let c = cs[n - 1] as int;
        if kind(t, c) == "function_definition"@ {
            (fs.push((c, x)), cl)
        } else if kind(t, c) == "decorated_definition"@ {
            let (f2, c2) = dec_scan(t, c, children(t, c), children(t, c).len() as int);
            (fs + f2, cl + c2)
        } else if kind(t, c) == "class_definition"@ {
            (fs, cl.push(c))
        } else {
            (fs, cl)
        }
    }
}

/// The functions and classes among the first `n` children `gs` of the
/// decorated definition `d`.
pub open spec fn dec_scan(t: SyntaxTree, d: int, gs: Seq<usize>, n: int) -> (Seq<(int, int)>, Seq<int>)
    decreases n,
{
    if n <= 0 {
        (Seq::empty(), Seq::empty())
    } else {
        let (fs, cl) = dec_scan(t, d, gs, n - 1);
        let g = gs[n - 1] as int;
        if kind(t, g) == "function_definition"@ {
            (fs.push((g, d)), cl)
        } else if kind(t, g) == "class_definition"@ {
            (fs, cl.push(g))
        } else {
            (fs, cl)
        }
    }
}

/// The walk that finds function definitions: it takes the last node of the
/// stack, keeps the functions found directly under it and pushes the
/// classes found there, for at most `fuel` steps.
pub open spec fn walk_functions(t: SyntaxTree, stack: Seq<int>, fuel: nat) -> Seq<(int, int)>
    decreases fuel,
{
    if fuel == 0 || stack.len() == 0 {
        Seq::empty()
    } else {
        let x = stack.last();
        let (fs, cl) = if 0 <= x < t.nodes@.len() {
            fn_scan(t, x, children(t, x), children(t, x).len() as int)
        } else {
            (Seq::empty(), Seq::empty())
        };
        fs + walk_functions(t, stack.drop_last() + cl, (fuel - 1) as nat)
    }
}

/// The function definitions of the file, with the node each hangs under:
/// those of the module, then those of its classes (the last class found
/// first), without looking into function bodies.
pub open spec fn function_nodes(t: SyntaxTree) -> Seq<(int, int)> {
    walk_functions(t, seq![0int], t.nodes@.len() + 1)
}

proof fn lemma_scan_bounds(t: SyntaxTree, x: int, n: int)
    requires
        wf(t),
        0 <= x < t.nodes@.len(),
        0 <= n <= children(t, x).len(),
    ensures
        forall|k: int| 0 <= k < fn_scan(t, x, children(t, x), n).0.len() ==> {
            let q = #[trigger] fn_scan(t, x, children(t, x), n).0[k];
            0 <= q.0 < t.nodes@.len() && 0 <= q.1 < t.nodes@.len()
        },
        forall|k: int| 0 <= k < fn_scan(t, x, children(t, x), n).1.len() ==> 0 <= #[trigger] fn_scan(t, x, children(t, x), n).1[k] < t.nodes@.len(),
    decreases n,
{
    if n > 0 {
        lemma_scan_bounds(t, x, n - 1);
        lemma_child_nested(t, x, n - 1);
        let c = children(t, x)[n - 1] as int;
        assert(t.nodes@[x].end <= t.nodes@.len());
        assert(c < t.nodes@.len());
        lemma_dec_scan_bounds(t, c, children(t, c).len() as int);
        let p = fn_scan(t, x, children(t, x), n - 1);
        let r = fn_scan(t, x, children(t, x), n);
        let q = dec_scan(t, c, children(t, c), children(t, c).len() as int);
        assert forall|k: int| 0 <= k < r.0.len() implies {
            let e = #[trigger] r.0[k];
            0 <= e.0 < t.nodes@.len() && 0 <= e.1 < t.nodes@.len()
        } by {
            if k < p.0.len() {
                assert(r.0[k] == p.0[k]);
            } else if kind(t, c) == "function_definition"@ {
            } else if kind(t, c) == "decorated_definition"@ {
                assert(r.0[k] == q.0[k - p.0.len()]);
            }
        }
        assert forall|k: int| 0 <= k < r.1.len() implies 0 <= #[trigger] r.1[k] < t.nodes@.len() by {
            if k < p.1.len() {
                assert(r.1[k] == p.1[k]);
            } else if kind(t, c) == "function_definition"@ {
            } else if kind(t, c) == "decorated_definition"@ {
                assert(r.1[k] == q.1[k - p.1.len()]);
            }
        }
    }
}

proof fn lemma_dec_scan_bounds(t: SyntaxTree, d: int, n: int)
    requires
        wf(t),
        0 <= d < t.nodes@.len(),
        0 <= n <= children(t, d).len(),
    ensures
        forall|k: int| 0 <= k < dec_scan(t, d, children(t, d), n).0.len() ==> {
            let q = #[trigger] dec_scan(t, d, children(t, d), n).0[k];
            0 <= q.0 < t.nodes@.len() && 0 <= q.1 < t.nodes@.len()
        },
        forall|k: int| 0 <= k < dec_scan(t, d, children(t, d), n).1.len() ==> 0 <= #[trigger] dec_scan(t, d, children(t, d), n).1[k] < t.nodes@.len(),
    decreases n,
{
    if n > 0 {
        lemma_dec_scan_bounds(t, d, n - 1);
        lemma_child_nested(t, d, n - 1);
        assert(t.nodes@[d].end <= t.nodes@.len());
        let g = children(t, d)[n - 1] as int;
        assert(g < t.nodes@.len());
        let p = dec_scan(t, d, children(t, d), n - 1);
        let r = dec_scan(t, d, children(t, d), n);
        assert forall|k: int| 0 <= k < r.0.len() implies {
            let e = #[trigger] r.0[k];
            0 <= e.0 < t.nodes@.len() && 0 <= e.1 < t.nodes@.len()
        } by {
            if k < p.0.len() {
                assert(r.0[k] == p.0[k]);
            }
        }
        assert forall|k: int| 0 <= k < r.1.len() implies 0 <= #[trigger] r.1[k] < t.nodes@.len() by {
            if k < p.1.len() {
                assert(r.1[k] == p.1[k]);
            }
        }
    }
}

/// The function definitions of the file, with the node each hangs under.
fn collect_function_nodes(t: &SyntaxTree) -> (r: Vec<(usize, usize)>)
    requires
        wf(*t),
        t.nodes@.len() >= 1,
    ensures
        int_pairs(r@) == function_nodes(*t),
        forall|k: int| 0 <= k < r@.len() ==> (#[trigger] r@[k]).0 < t.nodes@.len() && r@[k].1 < t.nodes@.len(),
{
    let mut out: Vec<(usize, usize)> = Vec::new();
    let mut stack: Vec<usize> = Vec::new();
    stack.push(0);
    let n = t.nodes.len();
    let mut fuel: usize = n;
    let ghost total = function_nodes(*t);
    assert(ints(stack@) =~= seq![0int]);
    let ghost mut gfuel: nat = (n + 1) as nat;
    // One step per iteration; `fuel` counts the steps left after this one.
    loop
        invariant
            wf(*t),
            n == t.nodes@.len(),
            total == function_nodes(*t),
            gfuel == fuel + 1,
            forall|k: int| 0 <= k < stack@.len() ==> #[trigger] stack@[k] < n,
            forall|k: int| 0 <= k < out@.len() ==> (#[trigger] out@[k]).0 < n && out@[k].1 < n,
            int_pairs(out@) + walk_functions(
                *t,
                ints(stack@),
                gfuel,
            ) == total,
        decreases gfuel,
    {
        let ghost sv = ints(stack@);
        if stack.len() == 0 {
            assert(walk_functions(*t, sv, gfuel) == Seq::<(int, int)>::empty());
            assert(int_pairs(out@) + Seq::<(int, int)>::empty()
                =~= int_pairs(out@));
            return out;
        }
        let x = stack.pop().unwrap();
        assert(sv.last() == x as int);
        assert(ints(stack@) =~= sv.drop_last());
        let ghost before = int_pairs(out@);
        let ghost scan = fn_scan(*t, x as int, children(*t, x as int), children(*t, x as int).len() as int);
        proof {
            lemma_scan_bounds(*t, x as int, children(*t, x as int).len() as int);
        }
        let mut found: Vec<(usize, usize)> = Vec::new();
        let mut classes: Vec<usize> = Vec::new();
        let cs = &t.nodes[x].children;
        let mut k: usize = 0;
        while k < cs.len()
            invariant
                wf(*t),
                n == t.nodes@.len(),
                x < n,
                cs@ == children(*t, x as int),
                k <= cs@.len(),
                int_pairs(found@) == fn_scan(*t, x as int, cs@, k as int).0,
                ints(classes@) == fn_scan(*t, x as int, cs@, k as int).1,
            decreases cs.len() - k,
        {
            proof {
                lemma_child_nested(*t, x as int, k as int);
            }
            let c = cs[k];
            let ghost f0 = int_pairs(found@);
            let ghost c0 = ints(classes@);
            if kind_is(t, c, "function_definition") {
                found.push((c, x));
                assert(int_pairs(found@) =~= f0.push((c as int, x as int)));
            } else if kind_is(t, c, "decorated_definition") {
                let gs = &t.nodes[c].children;
                let ghost f1 = Seq::<(int, int)>::empty();
                let mut m: usize = 0;
                while m < gs.len()
                    invariant
                        wf(*t),
                        n == t.nodes@.len(),
                        c < n,
                        gs@ == children(*t, c as int),
                        m <= gs@.len(),
                        int_pairs(found@) == f0 + dec_scan(*t, c as int, gs@, m as int).0,
                        ints(classes@) == c0 + dec_scan(*t, c as int, gs@, m as int).1,
                    decreases gs.len() - m,
                {
                    proof {
                        lemma_child_nested(*t, c as int, m as int);
                    }
                    let g = gs[m];
                    let ghost fa = int_pairs(found@);
                    let ghost ca = ints(classes@);
                    if kind_is(t, g, "function_definition") {
                        found.push((g, c));
                        assert(int_pairs(found@) =~= fa.push((g as int, c as int)));
                    } else if kind_is(t, g, "class_definition") {
                        classes.push(g);
                        assert(ints(classes@) =~= ca.push(g as int));
                    }
                    m = m + 1;
                }
            } else if kind_is(t, c, "class_definition") {
                classes.push(c);
                assert(ints(classes@) =~= c0.push(c as int));
            }
            k = k + 1;
        }
        let ghost fv = int_pairs(found@);
        let ghost cv = ints(classes@);
        assert(fv == scan.0 && cv == scan.1);
        let mut i: usize = 0;
        while i < found.len()
            invariant
                i <= found@.len(),
                n == t.nodes@.len(),
                fv == int_pairs(found@),
                forall|q: int| 0 <= q < fv.len() ==> 0 <= (#[trigger] fv[q]).0 < n && 0 <= fv[q].1 < n,
                forall|q: int| 0 <= q < out@.len() ==> (#[trigger] out@[q]).0 < n && out@[q].1 < n,
                int_pairs(out@) == before + fv.take(i as int),
            decreases found.len() - i,
        {
            let ghost ov = int_pairs(out@);
            out.push(found[i]);
            assert(fv[i as int] == (found@[i as int].0 as int, found@[i as int].1 as int));
            assert(int_pairs(out@) =~= ov.push(fv[i as int]));
            assert(fv.take(i + 1) =~= fv.take(i as int).push(fv[i as int]));
            i = i + 1;
        }
        assert(fv.take(found@.len() as int) =~= fv);
        let ghost sb = ints(stack@);
        let mut i: usize = 0;
        while i < classes.len()
            invariant
                i <= classes@.len(),
                n == t.nodes@.len(),
                cv == ints(classes@),
                forall|q: int| 0 <= q < cv.len() ==> 0 <= #[trigger] cv[q] < n,
                forall|q: int| 0 <= q < stack@.len() ==> #[trigger] stack@[q] < n,
                ints(stack@) == sb + cv.take(i as int),
            decreases classes.len() - i,
        {
            let ghost st = ints(stack@);
            stack.push(classes[i]);
            assert(ints(stack@) =~= st.push(cv[i as int]));
            assert(cv.take(i + 1) =~= cv.take(i as int).push(cv[i as int]));
            i = i + 1;
        }
        assert(cv.take(classes@.len() as int) =~= cv);
        proof {
            assert(walk_functions(*t, sv, gfuel) == fv + walk_functions(*t, sb + cv, (gfuel - 1) as nat));
            assert(before + (fv + walk_functions(*t, sb + cv, (gfuel - 1) as nat)) =~= (before + fv) + walk_functions(*t, sb + cv, (gfuel - 1) as nat));
        }
        if fuel == 0 {
            proof {
                assert(walk_functions(*t, sb + cv, 0) == Seq::<(int, int)>::empty());
                assert((before + fv) + Seq::<(int, int)>::empty() =~= before + fv);
            }
            return out;
        }
        fuel = fuel - 1;
        proof {
            gfuel = (gfuel - 1) as nat;
        }
    }
}

/// The imports among the first `n` children `cs` of the module: the text of
/// each import statement.
pub open spec fn imports_in(t: SyntaxTree, cs: Seq<usize>, n: int) -> Seq<Seq<char>>
    decreases n,
{
    if n <= 0 {
        Seq::empty()
    } else {
        let p = imports_in(t, cs, n - 1);
        let c = cs[n - 1] as int;
        if kind(t, c) == "import_statement"@ || kind(t, c) == "import_from_statement"@ {
            p.push(text(t, c))
        } else {
            p
        }
    }
}

/// The imports of the module, in order.
pub open spec fn imports_of(t: SyntaxTree) -> Seq<Seq<char>> {
    imports_in(t, children(t, 0), children(t, 0).len() as int)
}

fn extract_imports(t: &SyntaxTree) -> (r: Vec<String>)
    requires
        wf(*t),
        t.nodes@.len() >= 1,
    ensures
        crate::models::texts(r@) == imports_of(*t),
{
    let cs = &t.nodes[0].children;
    let mut out: Vec<String> = Vec::new();
    let mut k: usize = 0;
    while k < cs.len()
        invariant
            wf(*t),
            t.nodes@.len() >= 1,
            cs@ == children(*t, 0),
            k <= cs@.len(),
            crate::models::texts(out@) == imports_in(*t, cs@, k as int),
        decreases cs.len() - k,
    {
        proof {
            lemma_child_nested(*t, 0, k as int);
        }
        let c = cs[k];
        if kind_is(t, c, "import_statement") || kind_is(t, c, "import_from_statement") {
            let ghost before = crate::models::texts(out@);
            out.push(t.nodes[c].text.clone());
            assert(crate::models::texts(out@) =~= before.push(text(*t, c as int)));
        }
        k = k + 1;
    }
    out
}

/// A decorator text that marks a frozen dataclass.
pub open spec fn frozen_text(d: Seq<char>) -> bool {
    (contains(d, "dataclass"@) && contains(d, "frozen"@) && contains(d, "True"@)) || contains(d, "@frozen"@)
}

/// The last class definition and whether some decorator marks it frozen,
/// among the first `n` children `gs` of a decorated definition.
pub open spec fn frozen_scan(t: SyntaxTree, gs: Seq<usize>, n: int) -> (Option<int>, bool)
    decreases n,
{
    if n <= 0 {
        (None, false)
    } else {
        let (cls, frozen) = frozen_scan(t, gs, n - 1);
        let g = gs[n - 1] as int;
        if kind(t, g) == "class_definition"@ {
            (Some(g), frozen)
        } else if kind(t, g) == "decorator"@ {
            (cls, frozen || frozen_text(text(t, g)))
        } else {
            (cls, frozen)
        }
    }
}

/// The names of the frozen dataclasses defined among the first `n`
/// children `cs` of the module.
pub open spec fn frozen_in(t: SyntaxTree, cs: Seq<usize>, n: int) -> Seq<Seq<char>>
    decreases n,
{
    if n <= 0 {
        Seq::empty()
    } else {
        let p = frozen_in(t, cs, n - 1);
        let c = cs[n - 1] as int;
        if kind(t, c) == "decorated_definition"@ {
            let (cls, frozen) = frozen_scan(t, children(t, c), children(t, c).len() as int);
            match cls {
                Some(k) => if frozen {
                    match field_child(t, k, "name"@) {
                        Some(nn) => p.push(text(t, nn)),
                        None => p,
                    }
                } else {
                    p
                },
                None => p,
            }
        } else {
            p
        }
    }
}

/// The names of the frozen dataclasses of the module.
pub open spec fn frozen_names(t: SyntaxTree) -> Seq<Seq<char>> {
    frozen_in(t, children(t, 0), children(t, 0).len() as int)
}

fn detect_frozen_dataclass_names(t: &SyntaxTree) -> (r: Vec<String>)
    requires
        wf(*t),
        t.nodes@.len() >= 1,
    ensures
        crate::models::texts(r@) == frozen_names(*t),
{
    let cs = &t.nodes[0].children;
    let mut out: Vec<String> = Vec::new();
    let mut k: usize = 0;
    while k < cs.len()
        invariant
            wf(*t),
            t.nodes@.len() >= 1,
            cs@ == children(*t, 0),
            k <= cs@.len(),
            crate::models::texts(out@) == frozen_in(*t, cs@, k as int),
        decreases cs.len() - k,
    {
        proof {
            lemma_child_nested(*t, 0, k as int);
        }
        let c = cs[k];
        if kind_is(t, c, "decorated_definition") {
            let gs = &t.nodes[c].children;
            let mut cls: Option<usize> = None;
            let mut frozen = false;
            let mut m: usize = 0;
            while m < gs.len()
                invariant
                    wf(*t),
                    c < t.nodes@.len(),
                    gs@ == children(*t, c as int),
                    m <= gs@.len(),
                    frozen_scan(*t, gs@, m as int) == (match cls {
                        Some(x) => Some(x as int),
                        None => None::<int>,
                    }, frozen),
                    cls matches Some(x) ==> x < t.nodes@.len(),
                decreases gs.len() - m,
            {
                proof {
                    lemma_child_nested(*t, c as int, m as int);
                }
                let g = gs[m];
                if kind_is(t, g, "class_definition") {
                    cls = Some(g);
                } else if kind_is(t, g, "decorator") {
                    let d = t.nodes[g].text.as_str();
                    if (str_contains(d, "dataclass") && str_contains(d, "frozen") && str_contains(d, "True"))
                        || str_contains(d, "@frozen") {
                        frozen = true;
                    }
                }
                m = m + 1;
            }
            match cls {
                Some(x) => {
                    if frozen {
                        match field_child_exec(t, x, "name") {
                            Some(nn) => {
                                let ghost before = crate::models::texts(out@);
                                out.push(t.nodes[nn].text.clone());
                                assert(crate::models::texts(out@) =~= before.push(text(*t, nn as int)));
                            },
                            None => {},
                        }
                    }
                },
                None => {},
            }
        }
        k = k + 1;
    }
    out
}

/// The text of the body node, or the empty text without a body.
pub open spec fn body_text(t: SyntaxTree, body: Option<int>) -> Seq<char> {
    match body {
        Some(b) => text(t, b),
        None => Seq::empty(),
    }
}

/// Optional counts as naturals.
pub open spec fn opt_nat(o: Option<usize>) -> Option<nat> {
    match o {
        Some(n) => Some(n as nat),
        None => None,
    }
}

/// The parametrize values as texts.
pub open spec fn value_views(v: Seq<Vec<String>>) -> Seq<Seq<Seq<char>>> {
    v.map_values(|x: Vec<String>| crate::models::texts(x@))
}

/// A property of the body's subtree, false without a body.
pub open spec fn body_has(body: Option<int>, p: spec_fn(int) -> bool) -> bool {
    match body {
        Some(b) => p(b),
        None => false,
    }
}

/// The record `tf` is what the parser reads from the test function `f`
/// (found under node `p`) of the tree `t` of the file `path`: each field as
/// the function's syntax gives it.
pub open spec fn test_function_of(tf: TestFunction, t: SyntaxTree, f: int, p: int, path: Seq<char>) -> bool {
    let body = field_child(t, f, "body"@);
    let bt = body_text(t, body);
    let ds = decorators_of(t, f, p);
    let deps = fixture_deps_of(t, f);
    &&& field_child(t, f, "name"@) matches Some(n) && tf.name@ == text(t, n)
    &&& tf.file_path@ == path
    &&& tf.line == line_of(t.nodes@[f].start_row)
    &&& tf.end_line == line_of(t.nodes@[f].end_row)
    &&& tf.is_async == is_async_def(t, f)
    &&& (tf.is_parametrized, opt_nat(tf.parametrize_count)) == parametrize_of(t, ds)
    &&& tf.assertion_count == (match body {
        Some(b) => count_kind_in(t, "assert_statement"@, b, end(t, b)),
        None => 0,
    })
    &&& tf.has_assertions == (tf.assertion_count > 0)
    &&& tf.has_mock_verifications == (exists|k: int|
        0 <= k < verification_texts().len() && contains(bt, #[trigger] verification_texts()[k]))
    &&& tf.has_state_assertions == (tf.has_assertions && !mock_verifications_only(bt))
    &&& crate::models::texts(tf.fixture_deps@) == deps
    &&& tf.uses_time_sleep == body_has(body, |b: int| has_sleep_call(t, b))
    &&& literal_views(tf.sleep_values@) == (match body {
        Some(b) => sleep_literals(t, b, end(t, b)),
        None => Seq::empty(),
    })
    &&& tf.sleep_exceeds_limit == body_has(body, |b: int| sleep_fold(t, b) matches Some(c) && c.above)
    &&& tf.uses_file_io == body_has(body, |b: int| has_file_io(t, b))
    &&& tf.uses_network == body_has(body, |b: int| has_network(t, b))
    &&& tf.has_conditional_logic == body_has(body, |b: int| has_kind(t, b, "if_statement"@))
    &&& tf.has_try_except == body_has(body, |b: int| has_kind(t, b, "try_statement"@))
    &&& crate::models::opt_text(tf.docstring) == docstring_of(t, f)
    &&& (match body {
        Some(b) => assertions_of(tf.assertions@, t, b, end(t, b)),
        None => tf.assertions@.len() == 0,
    })
    &&& value_views(tf.parametrize_values@) == parametrize_values_of(t, ds, ds.len() as int)
    &&& tf.uses_cwd_dependency == body_has(body, |b: int| has_cwd(t, b))
    &&& tf.uses_pytest_raises == body_has(body, |b: int| has_raises(t, b))
    &&& crate::models::texts(tf.mutates_fixture_deps@) == (match body {
        Some(b) => crate::grouping::sorted_set(mutations(t, b, end(t, b), deps)),
        None => Seq::empty(),
    })
    &&& tf.body_hash == (match body {
        Some(b) => Some(text_hash_of(text(t, b))),
        None => None,
    })
    &&& tf.uses_random == body_has(body, |b: int| has_random(t, b))
    &&& tf.has_random_seed == body_has(body, |b: int| has_random_seed(t, b))
    &&& tf.uses_subprocess == body_has(body, |b: int| has_subprocess(t, b))
    &&& tf.has_subprocess_timeout == body_has(body, |b: int| has_missing_timeout(t, b))
    &&& crate::models::texts(tf.mocked_stdlib_targets@) == patch_targets_of(t, ds, body, true)
    &&& tf.mocks_stdlib_module == (tf.mocked_stdlib_targets@.len() > 0)
    &&& crate::models::texts(tf.weak_assertion_details@) == (match body {
        Some(b) => weak_details(t, b, end(t, b)),
        None => Seq::empty(),
    })
    &&& tf.has_weak_assertions == (tf.weak_assertion_details@.len() > 0)
    &&& crate::models::texts(tf.patch_targets@) == patch_targets_of(t, ds, body, false)
    &&& tf.has_magic_mock == contains(bt, "MagicMock"@)
    &&& tf.mock_count == mock_ops(bt)
    &&& tf.uses_shutil_copy == (exists|k: int| 0 <= k < shutil_moves().len() && contains(bt, #[trigger] shutil_moves()[k]))
}

/// Whether every text of `acc` is a fixture dependency of `deps` or empty.
pub open spec fn deps_or_empty(acc: Seq<Seq<char>>, deps: Seq<Seq<char>>) -> bool {
    forall|i: int| 0 <= i < acc.len() ==> deps.contains(#[trigger] acc[i]) || acc[i].len() == 0
}

proof fn lemma_push_dep_or_empty(acc: Seq<Seq<char>>, deps: Seq<Seq<char>>, x: Seq<char>)
    requires
        deps_or_empty(acc, deps),
        deps.contains(x) || x.len() == 0,
    ensures
        deps_or_empty(acc.push(x), deps),
{
    assert forall|i: int| 0 <= i < acc.push(x).len() implies deps.contains(#[trigger] acc.push(x)[i]) || acc.push(x)[i].len()
        == 0 by {
        if i < acc.len() {
            assert(acc.push(x)[i] == acc[i]);
        }
    }
}

/// The root a fixture chain is followed to is a dependency, or empty where
/// the chain breaks.
proof fn lemma_fixture_root(t: SyntaxTree, j: int, deps: Seq<Seq<char>>)
    ensures
        deps.contains(fixture_root(t, j, deps)) || fixture_root(t, j, deps).len() == 0,
    decreases t.nodes@.len() - j,
{
    if 0 <= j < t.nodes@.len() && !(kind(t, j) == "identifier"@ && deps.contains(text(t, j))) && (kind(t, j) == "attribute"@
        || kind(t, j) == "subscript"@) {
        let f = if kind(t, j) == "attribute"@ {
            "object"@
        } else {
            "value"@
        };
        match field_child(t, j, f) {
            Some(c) => if j < c < t.nodes@.len() {
                lemma_fixture_root(t, c, deps);
            },
            None => {},
        }
    }
}

proof fn lemma_push_if_dep(t: SyntaxTree, n: int, deps: Seq<Seq<char>>, acc: Seq<Seq<char>>)
    requires
        deps_or_empty(acc, deps),
    ensures
        deps_or_empty(push_if_dep(t, n, deps, acc), deps),
{
    lemma_fixture_root(t, n, deps);
    if deps.contains(text(t, n)) {
        lemma_push_dep_or_empty(acc, deps, text(t, n));
    } else if fixture_chain(t, n, deps) {
        lemma_push_dep_or_empty(acc, deps, fixture_root(t, n, deps));
    }
}

proof fn lemma_deleted_deps(t: SyntaxTree, cs: Seq<usize>, n: int, deps: Seq<Seq<char>>, acc: Seq<Seq<char>>)
    requires
        deps_or_empty(acc, deps),
    ensures
        deps_or_empty(deleted_deps(t, cs, n, deps, acc), deps),
    decreases n,
{
    if n > 0 {
        lemma_deleted_deps(t, cs, n - 1, deps, acc);
        let p = deleted_deps(t, cs, n - 1, deps, acc);
        let tx = trim(text(t, cs[n - 1] as int));
        if deps.contains(tx) {
            lemma_push_dep_or_empty(p, deps, tx);
        }
    }
}

/// What the mutation scan records is a fixture dependency, or empty.
proof fn lemma_mutations_deps(t: SyntaxTree, a: int, b: int, deps: Seq<Seq<char>>)
    ensures
        deps_or_empty(mutations(t, a, b, deps), deps),
    decreases b - a,
{
    if b > a {
        lemma_mutations_deps(t, a, b - 1, deps);
        let acc = mutations(t, a, b - 1, deps);
        let j = b - 1;
        let a1 = mutating_call(t, j, deps, acc);
        match call_function(t, j) {
            Some(f) => {
                if kind(t, f) == "attribute"@ {
                    match (field_child(t, f, "object"@), field_child(t, f, "attribute"@)) {
                        (Some(o), Some(_)) => {
                            lemma_fixture_root(t, o, deps);
                            if a1 != acc {
                                lemma_push_dep_or_empty(acc, deps, fixture_root(t, o, deps));
                            }
                        },
                        _ => {},
                    }
                }
            },
            None => {},
        }
        assert(deps_or_empty(a1, deps));
        let a2 = if kind(t, j) == "assignment"@ {
            match field_child(t, j, "left"@) {
                Some(l) => assignment_target(t, l, deps, a1),
                None => a1,
            }
        } else {
            a1
        };
        if kind(t, j) == "assignment"@ {
            match field_child(t, j, "left"@) {
                Some(l) => {
                    let b1 = if kind(t, l) == "subscript"@ {
                        match field_child(t, l, "value"@) {
                            Some(v) => push_if_dep(t, v, deps, a1),
                            None => a1,
                        }
                    } else {
                        a1
                    };
                    if kind(t, l) == "subscript"@ {
                        match field_child(t, l, "value"@) {
                            Some(v) => lemma_push_if_dep(t, v, deps, a1),
                            None => {},
                        }
                    }
                    if kind(t, l) == "attribute"@ {
                        match field_child(t, l, "object"@) {
                            Some(o) => lemma_push_if_dep(t, o, deps, b1),
                            None => {},
                        }
                    }
                },
                None => {},
            }
        }
        assert(deps_or_empty(a2, deps));
        if kind(t, j) == "delete_statement"@ {
            lemma_deleted_deps(t, children(t, j), children(t, j).len() as int, deps, a2);
        }
    }
}

/// The fields of a test's record agree with one another: it has assertions
/// exactly when it counts some, state assertions are assertions, it is
/// parametrized exactly when it has a case count, it mocks the standard
/// library exactly when it names such a target, each of which is among its
/// patch targets, it has weak assertions exactly when it details some, and
/// the fixture dependencies it mutates come each once, in increasing order,
/// each a fixture dependency of the test (or empty, where a mutated object
/// that looks like a dependency has no name to follow back).
pub proof fn test_record_fields_agree(tf: TestFunction, t: SyntaxTree, f: int, p: int, path: Seq<char>)
    requires
        test_function_of(tf, t, f, p, path),
    ensures
        tf.has_assertions == (tf.assertion_count > 0),
        tf.has_state_assertions ==> tf.has_assertions,
        tf.is_parametrized == (tf.parametrize_count is Some),
        tf.mocks_stdlib_module == (tf.mocked_stdlib_targets@.len() > 0),
        forall|k: int|
            0 <= k < tf.mocked_stdlib_targets@.len() ==> crate::models::texts(tf.patch_targets@).contains(
                #[trigger] tf.mocked_stdlib_targets@[k]@,
            ),
        tf.has_weak_assertions == (tf.weak_assertion_details@.len() > 0),
        crate::grouping::strictly_sorted(crate::models::texts(tf.mutates_fixture_deps@)),
        forall|k: int|
            0 <= k < tf.mutates_fixture_deps@.len() ==> crate::models::texts(tf.fixture_deps@).contains(
                #[trigger] tf.mutates_fixture_deps@[k]@,
            ) || tf.mutates_fixture_deps@[k]@.len() == 0,
{
    let body = field_child(t, f, "body"@);
    let ds = decorators_of(t, f, p);
    lemma_stdlib_targets_within(t, ds, body);
    assert forall|k: int| 0 <= k < tf.mocked_stdlib_targets@.len() implies crate::models::texts(tf.patch_targets@).contains(
        #[trigger] tf.mocked_stdlib_targets@[k]@,
    ) by {
        let y = tf.mocked_stdlib_targets@[k]@;
        assert(crate::models::texts(tf.mocked_stdlib_targets@)[k] == y);
        assert(patch_targets_of(t, ds, body, true).contains(y));
    }
    match body {
        Some(b) => {
            let deps = fixture_deps_of(t, f);
            let ms = mutations(t, b, end(t, b), deps);
            crate::grouping::lemma_sorted_set(ms);
            lemma_mutations_deps(t, b, end(t, b), deps);
            assert forall|k: int| 0 <= k < tf.mutates_fixture_deps@.len() implies crate::models::texts(tf.fixture_deps@).contains(
                #[trigger] tf.mutates_fixture_deps@[k]@,
            ) || tf.mutates_fixture_deps@[k]@.len() == 0 by {
                let x = tf.mutates_fixture_deps@[k]@;
                assert(crate::models::texts(tf.mutates_fixture_deps@)[k] == x);
                assert(crate::grouping::sorted_set(ms).contains(x));
                assert(ms.contains(x));
                let i = choose|i: int| 0 <= i < ms.len() && ms[i] == x;
                assert(deps.contains(ms[i]) || ms[i].len() == 0);
            }
        },
        None => {
            assert(crate::grouping::strictly_sorted(Seq::<Seq<char>>::empty()));
        },
    }
}

/// Whether the body text contains one of the texts of `list` (stated over
/// the list's texts).
fn contains_listed(bt: &str, list: &Vec<&'static str>, Ghost(spec_list): Ghost<Seq<Seq<char>>>) -> (r: bool)
    requires
        list@.map_values(|s: &'static str| s@) == spec_list,
    ensures
        r == (exists|k: int| 0 <= k < spec_list.len() && contains(bt@, #[trigger] spec_list[k])),
{
    let r = str_contains_any(bt, list);
    proof {
        if r {
            let k = choose|k: int| 0 <= k < list@.len() && contains(bt@, #[trigger] list@[k]@);
            assert(spec_list[k] == list@[k]@);
        }
        if exists|k: int| 0 <= k < spec_list.len() && contains(bt@, #[trigger] spec_list[k]) {
            let k = choose|k: int| 0 <= k < spec_list.len() && contains(bt@, #[trigger] spec_list[k]);
            assert(spec_list[k] == list@[k]@);
        }
    }
    r
}

/// Reads the test function `f` (found under node `p`) named `name`.
#[verifier::spinoff_prover]
#[verifier::rlimit(40)]
fn build_test_function(t: &SyntaxTree, f: usize, p: usize, name: String, path: &str) -> (r: TestFunction)
    requires
        wf(*t),
        f < t.nodes@.len(),
        p < t.nodes@.len(),
        field_child(*t, f as int, "name"@) matches Some(n) && name@ == text(*t, n),
    ensures
        test_function_of(r, *t, f as int, p as int, path@),
{
    let body = field_child_exec(t, f, "body");
    let empty = String::new();
    let bt: &str = match body {
        Some(b) => t.nodes[b].text.as_str(),
        None => empty.as_str(),
    };
    let ds = get_decorators(t, f, p);
    let parametrize_values = extract_parametrize_values(t, &ds);
    let is_async = has_child_kind_exec(t, f, "async");
    let (is_parametrized, parametrize_count) = detect_parametrize(t, &ds);
    let assertion_count = match body {
        Some(b) => count_kind_exec(t, b, "assert_statement"),
        None => 0,
    };
    let has_assertions = assertion_count > 0;
    let has_mock_verifications = contains_listed(bt, &verification_texts_list(), Ghost(verification_texts()));
    let has_state_assertions = has_assertions && !has_mock_verifications_only(bt);
    let fixture_deps = extract_fixture_deps(t, f);
    let uses_time_sleep = match body {
        Some(b) => has_time_sleep_call(t, b),
        None => false,
    };
    let sleep_values = match body {
        Some(b) => sleep_literals_exec(t, b),
        None => Vec::new(),
    };
    let sleep_exceeds_limit = match body {
        Some(b) => match find_sleep_value(t, b) {
            Some(c) => c.above,
            None => false,
        },
        None => false,
    };
    let uses_file_io = match body {
        Some(b) => has_file_io_call(t, b),
        None => false,
    };
    let uses_network = match body {
        Some(b) => has_network_call(t, b),
        None => false,
    };
    let has_conditional_logic = match body {
        Some(b) => has_node_kind(t, b, "if_statement"),
        None => false,
    };
    let has_try_except = match body {
        Some(b) => has_node_kind(t, b, "try_statement"),
        None => false,
    };
    let docstring = extract_docstring(t, f);
    let assertions = match body {
        Some(b) => collect_assertion_info(t, b),
        None => Vec::new(),
    };
    let uses_cwd_dependency = match body {
        Some(b) => has_cwd_call(t, b),
        None => false,
    };
    let uses_pytest_raises = match body {
        Some(b) => has_pytest_raises(t, b),
        None => false,
    };
    let mutates_fixture_deps = match body {
        Some(b) => detect_fixture_mutations(t, b, &fixture_deps),
        None => Vec::new(),
    };
    let uses_random = match body {
        Some(b) => has_random_call(t, b),
        None => false,
    };
    let has_random_seed = match body {
        Some(b) => has_random_seed_call(t, b),
        None => false,
    };
    let uses_subprocess = match body {
        Some(b) => has_subprocess_call(t, b),
        None => false,
    };
    let has_subprocess_timeout = match body {
        Some(b) => has_missing_timeout_exec(t, b),
        None => false,
    };
    let mocked_stdlib_targets = detect_all_patch_targets(t, &ds, body, true);
    let mocks_stdlib_module = mocked_stdlib_targets.len() > 0;
    let weak_assertion_details = match body {
        Some(b) => detect_weak_assertions(t, b),
        None => Vec::new(),
    };
    let has_weak_assertions = weak_assertion_details.len() > 0;
    let patch_targets = detect_all_patch_targets(t, &ds, body, false);
    let has_magic_mock = str_contains(bt, "MagicMock");
    let mock_count = mock_ops_exec(bt);
    let uses_shutil_copy = contains_listed(bt, &shutil_moves_list(), Ghost(shutil_moves()));
    let body_hash = match body {
        Some(b) => Some(stable_hash(t.nodes[b].text.as_str())),
        None => None,
    };
    let tf = TestFunction {
        name,
        file_path: String::from_str(path),
        line: line_of_exec(t.nodes[f].start_row),
        end_line: line_of_exec(t.nodes[f].end_row),
        is_async,
        is_parametrized,
        parametrize_count,
        has_assertions,
        assertion_count,
        has_mock_verifications,
        has_state_assertions,
        fixture_deps,
        uses_time_sleep,
        sleep_values,
        sleep_exceeds_limit,
        uses_file_io,
        uses_network,
        has_conditional_logic,
        has_try_except,
        docstring,
        assertions,
        parametrize_values,
        uses_cwd_dependency,
        uses_pytest_raises,
        mutates_fixture_deps,
        body_hash,
        uses_random,
        has_random_seed,
        uses_subprocess,
        has_subprocess_timeout,
        mocks_stdlib_module,
        mocked_stdlib_targets,
        has_weak_assertions,
        weak_assertion_details,
        patch_targets,
        has_magic_mock,
        mock_count,
        uses_shutil_copy,
    };
    proof {
        if body is None {
            assert(literal_views(tf.sleep_values@) =~= Seq::<(bool, Seq<char>)>::empty());
            assert(crate::models::texts(tf.mutates_fixture_deps@) =~= Seq::<Seq<char>>::empty());
        }
    }
    tf
}

/// The texts of the decorator nodes `ds`.
pub open spec fn decorator_texts(t: SyntaxTree, ds: Seq<int>) -> Seq<Seq<char>> {
    ds.map_values(|d: int| text(t, d))
}

/// A decorator name that marks a fixture.
pub open spec fn is_fixture_name(n: Seq<char>) -> bool {
    n == "pytest.fixture"@ || n == "fixture"@
}

/// The function `f` (found under `p`) has a fixture decorator.
pub open spec fn is_fixture_def(t: SyntaxTree, f: int, p: int) -> bool {
    exists|k: int|
        0 <= k < decorators_of(t, f, p).len() && #[trigger] is_fixture_name(decorator_name(text(t, decorators_of(t, f, p)[k])))
}

/// The record `fx` is what the parser reads from the fixture `f` (found
/// under node `p`) of the tree `t` of the file `path`, given the module's
/// frozen dataclasses.
pub open spec fn fixture_of(fx: Fixture, t: SyntaxTree, f: int, p: int, frozen: Seq<Seq<char>>, path: Seq<char>) -> bool {
    let body = field_child(t, f, "body"@);
    let dts = decorator_texts(t, decorators_of(t, f, p));
    &&& field_child(t, f, "name"@) matches Some(n) && fx.name@ == text(t, n)
    &&& fx.file_path@ == path
    &&& fx.line == line_of(t.nodes@[f].start_row)
    &&& fx.scope == fixture_scope_of(dts)
    &&& fx.is_autouse == (exists|k: int| 0 <= k < dts.len() && contains(#[trigger] dts[k], "autouse"@) && contains(dts[k], "True"@))
    &&& crate::models::texts(fx.dependencies@) == fixture_deps_of(t, f)
    &&& fx.returns_mutable == body_has(body, |b: int| has_mutable_return(t, b, frozen))
    &&& fx.has_yield == body_has(body, |b: int| has_kind(t, b, "yield"@))
    &&& fx.has_db_commit == body_has(body, |b: int| has_db_call(t, b, "commit"@))
    &&& fx.has_db_rollback == body_has(body, |b: int| has_db_call(t, b, "rollback"@))
    &&& fx.has_cleanup == (fx.has_db_rollback || body_has(body, |b: int| cleanup_pattern(t, b)))
    &&& fx.uses_file_io == body_has(body, |b: int| has_file_io(t, b))
    &&& fx.used_by@.len() == 0
}

/// The function `f` is a test: it has a name that starts with `test_`.
pub open spec fn is_test_def(t: SyntaxTree, f: int) -> bool {
    field_child(t, f, "name"@) matches Some(n) && starts_with(text(t, n), "test_"@)
}

/// The tests among the first `n` function definitions `fs`.
pub open spec fn test_defs(t: SyntaxTree, fs: Seq<(int, int)>, n: int) -> Seq<(int, int)>
    decreases n,
{
    if n <= 0 {
        Seq::empty()
    } else {
        let p = test_defs(t, fs, n - 1);
        if is_test_def(t, fs[n - 1].0) {
            p.push(fs[n - 1])
        } else {
            p
        }
    }
}

/// The fixtures among the first `n` function definitions `fs`.
pub open spec fn fixture_defs(t: SyntaxTree, fs: Seq<(int, int)>, n: int) -> Seq<(int, int)>
    decreases n,
{
    if n <= 0 {
        Seq::empty()
    } else {
        let p = fixture_defs(t, fs, n - 1);
        if is_fixture_def(t, fs[n - 1].0, fs[n - 1].1) && field_child(t, fs[n - 1].0, "name"@) is Some {
            p.push(fs[n - 1])
        } else {
            p
        }
    }
}

/// The module record `m` is what the parser reads from the tree `t` of
/// `source` in the file `path`: its imports, then its tests and its
/// fixtures in the order of `function_nodes`.
pub open spec fn module_of(m: ParsedModule, t: SyntaxTree, source: Seq<char>, path: Seq<char>) -> bool {
    let fs = function_nodes(t);
    let tests = test_defs(t, fs, fs.len() as int);
    let fxs = fixture_defs(t, fs, fs.len() as int);
    &&& m.file_path@ == path
    &&& m.source@ == source
    &&& crate::models::texts(m.imports@) == imports_of(t)
    &&& m.test_functions@.len() == tests.len()
    &&& forall|k: int|
        0 <= k < tests.len() ==> #[trigger] test_function_of(m.test_functions@[k], t, tests[k].0, tests[k].1, path)
    &&& m.fixtures@.len() == fxs.len()
    &&& forall|k: int|
        0 <= k < fxs.len() ==> #[trigger] fixture_of(m.fixtures@[k], t, fxs[k].0, fxs[k].1, frozen_names(t), path)
}

/// Whether the syntax node `n` is the tree node `r` of `source`: the same
/// kind, field, rows, extra flag and depth, and as text the part of
/// `source` between the node's byte offsets.
pub open spec fn node_is(n: crate::syntax::SyntaxNode, r: NodeRecord, source: Seq<char>) -> bool {
    &&& n.kind@ == r.0
    &&& crate::paths::opt_chars(n.field) == r.1
    &&& n.text@ == crate::text::byte_text(source, r.2 as int, r.3 as int)
    &&& n.start_row == r.4
    &&& n.end_row == r.5
    &&& n.is_extra == r.6
    &&& n.depth == r.7
}

/// Whether `t` is the tree of `source` whose nodes, in pre-order, are `ns`.
pub open spec fn tree_from_records(t: SyntaxTree, ns: Seq<NodeRecord>, source: Seq<char>) -> bool {
    &&& wf(t)
    &&& t.nodes@.len() >= 1
    &&& t.nodes@.len() == ns.len()
    &&& forall|i: int| 0 <= i < ns.len() ==> node_is(#[trigger] t.nodes@[i], ns[i], source)
}

/// Whether `t` is the tree that tree-sitter's Python grammar builds for
/// `source`.
pub open spec fn python_tree(t: SyntaxTree, source: Seq<char>) -> bool {
    tree_from_records(t, python_nodes(source), source)
}

/// The walk for function definitions finds only nodes of the tree.
proof fn lemma_walk_bounds(t: SyntaxTree, stack: Seq<int>, fuel: nat)
    requires
        wf(t),
    ensures
        forall|k: int| 0 <= k < walk_functions(t, stack, fuel).len() ==> {
            let q = #[trigger] walk_functions(t, stack, fuel)[k];
            0 <= q.0 < t.nodes@.len() && 0 <= q.1 < t.nodes@.len()
        },
    decreases fuel,
{
    if fuel > 0 && stack.len() > 0 {
        let x = stack.last();
        let (fs, cl) = if 0 <= x < t.nodes@.len() {
            fn_scan(t, x, children(t, x), children(t, x).len() as int)
        } else {
            (Seq::empty(), Seq::empty())
        };
        if 0 <= x < t.nodes@.len() {
            lemma_scan_bounds(t, x, children(t, x).len() as int);
        }
        lemma_walk_bounds(t, stack.drop_last() + cl, (fuel - 1) as nat);
        let w = walk_functions(t, stack, fuel);
        let rest = walk_functions(t, stack.drop_last() + cl, (fuel - 1) as nat);
        assert(w == fs + rest);
        assert forall|k: int| 0 <= k < w.len() implies {
            let q = #[trigger] w[k];
            0 <= q.0 < t.nodes@.len() && 0 <= q.1 < t.nodes@.len()
        } by {
            if k < fs.len() {
                assert(w[k] == fs[k]);
            } else {
                assert(w[k] == rest[k - fs.len()]);
            }
        }
    }
}

/// The tests among some function definitions are among those definitions.
proof fn lemma_test_defs_bounds(t: SyntaxTree, fs: Seq<(int, int)>, n: int)
    requires
        0 <= n <= fs.len(),
        forall|k: int| 0 <= k < fs.len() ==> 0 <= (#[trigger] fs[k]).0 < t.nodes@.len(),
    ensures
        forall|k: int| 0 <= k < test_defs(t, fs, n).len() ==> 0 <= (#[trigger] test_defs(t, fs, n)[k]).0 < t.nodes@.len(),
    decreases n,
{
    if n > 0 {
        lemma_test_defs_bounds(t, fs, n - 1);
        let p = test_defs(t, fs, n - 1);
        let r = test_defs(t, fs, n);
        assert forall|k: int| 0 <= k < r.len() implies 0 <= (#[trigger] r[k]).0 < t.nodes@.len() by {
            if k < p.len() {
                assert(r[k] == p[k]);
            } else {
                assert(r[k] == fs[n - 1]);
            }
        }
    }
}

/// In a file of at most `u32::MAX` bytes, each test starts on a line no
/// later than the one it ends on.
proof fn lemma_test_lines_ordered(m: ParsedModule, t: SyntaxTree, source: Seq<char>, path: Seq<char>)
    requires
        python_tree(t, source),
        module_of(m, t, source, path),
        crate::treesitter::rows_ordered(python_nodes(source)),
    ensures
        forall|k: int| 0 <= k < m.test_functions@.len() ==> (#[trigger] m.test_functions@[k]).line <= m.test_functions@[k].end_line,
{
    let fs = function_nodes(t);
    let tests = test_defs(t, fs, fs.len() as int);
    lemma_walk_bounds(t, seq![0int], (t.nodes@.len() + 1) as nat);
    assert forall|k: int| 0 <= k < fs.len() implies 0 <= (#[trigger] fs[k]).0 < t.nodes@.len() by {
        let q = fs[k];
    }
    lemma_test_defs_bounds(t, fs, fs.len() as int);
    assert forall|k: int| 0 <= k < m.test_functions@.len() implies (#[trigger] m.test_functions@[k]).line
        <= m.test_functions@[k].end_line by {
        let f = tests[k].0;
        assert(0 <= (tests[k]).0 < t.nodes@.len());
        assert(test_function_of(m.test_functions@[k], t, tests[k].0, tests[k].1, path));
        assert(node_is(t.nodes@[f], python_nodes(source)[f], source));
        assert(python_nodes(source)[f].4 <= python_nodes(source)[f].5);
    }
}

/// Whether `m` is what the parser reads from the file `path` whose text is
/// `source`: the module of the tree tree-sitter's Python grammar builds for
/// it.
pub open spec fn python_module(m: ParsedModule, source: Seq<char>, path: Seq<char>) -> bool {
    exists|t: SyntaxTree| python_tree(t, source) && #[trigger] module_of(m, t, source, path)
}

/// Reads the fixture `f` (found under node `p`) named `name`.
fn build_fixture(t: &SyntaxTree, f: usize, p: usize, name: String, frozen: &Vec<String>, path: &str) -> (r: Fixture)
    requires
        wf(*t),
        f < t.nodes@.len(),
        p < t.nodes@.len(),
        field_child(*t, f as int, "name"@) matches Some(n) && name@ == text(*t, n),
    ensures
        fixture_of(r, *t, f as int, p as int, crate::models::texts(frozen@), path@),
{
    let body = field_child_exec(t, f, "body");
    let ds = get_decorators(t, f, p);
    let ghost dv = ints(ds@);
    let mut dts: Vec<String> = Vec::new();
    let mut k: usize = 0;
    while k < ds.len()
        invariant
            k <= ds@.len(),
            dv == ints(ds@),
            forall|m: int| 0 <= m < ds@.len() ==> #[trigger] ds@[m] < t.nodes@.len(),
            crate::models::texts(dts@) == decorator_texts(*t, dv.take(k as int)),
        decreases ds.len() - k,
    {
        let ghost before = crate::models::texts(dts@);
        dts.push(t.nodes[ds[k]].text.clone());
        assert(crate::models::texts(dts@) =~= before.push(text(*t, dv[k as int])));
        assert(decorator_texts(*t, dv.take(k + 1)) =~= decorator_texts(*t, dv.take(k as int)).push(text(*t, dv[k as int])));
        k = k + 1;
    }
    assert(dv.take(ds@.len() as int) =~= dv);
    assert(dv == ints(ds@));
    let ghost dtv = crate::models::texts(dts@);
    let scope = extract_fixture_scope(&dts);
    let mut is_autouse = false;
    let mut k: usize = 0;
    while k < dts.len() && !is_autouse
        invariant
            k <= dts@.len(),
            dtv == crate::models::texts(dts@),
            !is_autouse ==> forall|m: int| 0 <= m < k ==> !(contains(#[trigger] dtv[m], "autouse"@) && contains(dtv[m], "True"@)),
            is_autouse ==> k < dts@.len() && contains(dtv[k as int], "autouse"@) && contains(dtv[k as int], "True"@),
        decreases dts.len() - k + (if is_autouse { 0int } else { 1int }),
    {
        if str_contains(dts[k].as_str(), "autouse") && str_contains(dts[k].as_str(), "True") {
            is_autouse = true;
        } else {
            k = k + 1;
        }
    }
    let dependencies = extract_fixture_deps(t, f);
    let returns_mutable = match body {
        Some(b) => has_mutable_return_in_body(t, b, frozen),
        None => false,
    };
    let has_yield = match body {
        Some(b) => has_node_kind(t, b, "yield"),
        None => false,
    };
    let has_db_commit = match body {
        Some(b) => has_db_call_exec(t, b, "commit"),
        None => false,
    };
    let has_db_rollback = match body {
        Some(b) => has_db_call_exec(t, b, "rollback"),
        None => false,
    };
    let has_cleanup = has_db_rollback || match body {
        Some(b) => detect_cleanup_pattern(t, b),
        None => false,
    };
    let uses_file_io = match body {
        Some(b) => has_file_io_call(t, b),
        None => false,
    };
    Fixture {
        name,
        file_path: String::from_str(path),
        line: line_of_exec(t.nodes[f].start_row),
        scope,
        is_autouse,
        dependencies,
        returns_mutable,
        has_yield,
        has_db_commit,
        has_db_rollback,
        has_cleanup,
        uses_file_io,
        used_by: Vec::new(),
    }
}

/// Whether the function `f` (found under `p`) has a fixture decorator.
fn is_fixture_def_exec(t: &SyntaxTree, f: usize, p: usize) -> (r: bool)
    requires
        wf(*t),
        f < t.nodes@.len(),
        p < t.nodes@.len(),
    ensures
        r == is_fixture_def(*t, f as int, p as int),
{
    let ds = get_decorators(t, f, p);
    let ghost dv = decorators_of(*t, f as int, p as int);
    let mut k: usize = 0;
    while k < ds.len()
        invariant
            k <= ds@.len(),
            dv == ints(ds@),
            dv == decorators_of(*t, f as int, p as int),
            forall|m: int| 0 <= m < ds@.len() ==> #[trigger] ds@[m] < t.nodes@.len(),
            forall|m: int| 0 <= m < k ==> !#[trigger] is_fixture_name(decorator_name(text(*t, dv[m]))),
        decreases ds.len() - k,
    {
        let name = decorator_name_exec(t.nodes[ds[k]].text.as_str());
        if str_eq(name.as_str(), "pytest.fixture") || str_eq(name.as_str(), "fixture") {
            assert(is_fixture_name(decorator_name(text(*t, dv[k as int]))));
            return true;
        }
        k = k + 1;
    }
    false
}

/// Reads the module record from the syntax tree of `source`.
pub fn module_from_tree(t: &SyntaxTree, source: &str, path: &str) -> (m: ParsedModule)
    requires
        wf(*t),
        t.nodes@.len() >= 1,
    ensures
        module_of(m, *t, source@, path@),
{
    let imports = extract_imports(t);
    let frozen = detect_frozen_dataclass_names(t);
    let fs = collect_function_nodes(t);
    let ghost fv = int_pairs(fs@);
    let mut tests: Vec<TestFunction> = Vec::new();
    let mut fixtures: Vec<Fixture> = Vec::new();
    let mut k: usize = 0;
    while k < fs.len()
        invariant
            wf(*t),
            k <= fs@.len(),
            fv == int_pairs(fs@),
            fv == function_nodes(*t),
            forall|q: int| 0 <= q < fs@.len() ==> (#[trigger] fs@[q]).0 < t.nodes@.len() && fs@[q].1 < t.nodes@.len(),
            crate::models::texts(frozen@) == frozen_names(*t),
            tests@.len() == test_defs(*t, fv, k as int).len(),
            forall|q: int|
                0 <= q < tests@.len() ==> #[trigger] test_function_of(
                    tests@[q],
                    *t,
                    test_defs(*t, fv, k as int)[q].0,
                    test_defs(*t, fv, k as int)[q].1,
                    path@,
                ),
            fixtures@.len() == fixture_defs(*t, fv, k as int).len(),
            forall|q: int|
                0 <= q < fixtures@.len() ==> #[trigger] fixture_of(
                    fixtures@[q],
                    *t,
                    fixture_defs(*t, fv, k as int)[q].0,
                    fixture_defs(*t, fv, k as int)[q].1,
                    frozen_names(*t),
                    path@,
                ),
        decreases fs.len() - k,
    {
        let (f, p) = fs[k];
        assert(fv[k as int] == (f as int, p as int));
        let ghost tprev = test_defs(*t, fv, k as int);
        let ghost xprev = fixture_defs(*t, fv, k as int);
        match field_child_exec(t, f, "name") {
            Some(nn) => {
                let name = t.nodes[nn].text.clone();
                if str_starts_with(name.as_str(), "test_") {
                    let tf = build_test_function(t, f, p, name, path);
                    tests.push(tf);
                    assert(test_defs(*t, fv, k + 1) == tprev.push((f as int, p as int)));
                    assert forall|q: int| 0 <= q < tests@.len() implies #[trigger] test_function_of(
                        tests@[q],
                        *t,
                        test_defs(*t, fv, k + 1)[q].0,
                        test_defs(*t, fv, k + 1)[q].1,
                        path@,
                    ) by {
                        if q < tprev.len() {
                            assert(test_defs(*t, fv, k + 1)[q] == tprev[q]);
                        }
                    }
                } else {
                    assert(test_defs(*t, fv, k + 1) == tprev);
                }
                if is_fixture_def_exec(t, f, p) {
                    let name2 = t.nodes[nn].text.clone();
                    let fx = build_fixture(t, f, p, name2, &frozen, path);
                    fixtures.push(fx);
                    assert(fixture_defs(*t, fv, k + 1) == xprev.push((f as int, p as int)));
                    assert forall|q: int| 0 <= q < fixtures@.len() implies #[trigger] fixture_of(
                        fixtures@[q],
                        *t,
                        fixture_defs(*t, fv, k + 1)[q].0,
                        fixture_defs(*t, fv, k + 1)[q].1,
                        frozen_names(*t),
                        path@,
                    ) by {
                        if q < xprev.len() {
                            assert(fixture_defs(*t, fv, k + 1)[q] == xprev[q]);
                        }
                    }
                } else {
                    assert(fixture_defs(*t, fv, k + 1) == xprev);
                }
            },
            None => {
                assert(test_defs(*t, fv, k + 1) == tprev);
                assert(fixture_defs(*t, fv, k + 1) == xprev);
            },
        }
        k = k + 1;
    }
    ParsedModule {
        file_path: String::from_str(path),
        source: String::from_str(source),
        imports,
        test_functions: tests,
        fixtures,
    }
}

/// Why a parser could not be made.
#[derive(Debug, Clone, Copy, PartialEq, Eq, Structural)]
pub enum ParserError {
    /// The Python grammar was built for a version of tree-sitter that the
    /// library does not accept.
    IncompatibleLanguage,
}

impl PythonParser {
    /// Whether the parser parses Python, with neither a timeout nor a
    /// cancellation flag (as every parser that `new` makes does).
    pub closed spec fn ready(&self) -> bool {
        parser_ready(self.parser)
    }

    /// Creates a parser with the Python grammar loaded. The grammar that
    /// the library is built with suits its tree-sitter, so this succeeds.
    pub fn new() -> (r: Result<PythonParser, ParserError>)
        ensures
            r matches Ok(p) && p.ready(),
    {
        let mut parser = new_parser();
        match crate::treesitter::set_python_language(&mut parser) {
            Ok(()) => Ok(PythonParser { parser }),
            Err(_) => Err(ParserError::IncompatibleLanguage),
        }
    }

    /// The syntax tree that tree-sitter's Python grammar builds for
    /// `source`: its nodes in pre-order, each with its text cut from
    /// `source` between its byte offsets. Tree-sitter gives no tree only
    /// for a parser without a language or one cancelled or timed out, which
    /// a ready parser never is, so there always is one.
    pub fn syntax_tree(&mut self, source: &str) -> (r: Option<SyntaxTree>)
        requires
            old(self).ready(),
        ensures
            final(self).ready(),
            r matches Some(t) && python_tree(t, source@),
            crate::text::utf8_len(source@) <= u32::MAX ==> crate::treesitter::rows_ordered(python_nodes(source@)),
    {
        match crate::treesitter::parse_text(&mut self.parser, source) {
            Some(tree) => {
                let mut cursor = crate::treesitter::tree_walk(&tree);
                let ghost ns = crate::treesitter::cursor_nodes(cursor);
                proof {
                    crate::treesitter::lemma_root_subtree(ns);
                }
                let count = crate::treesitter::descendant_count(&cursor);
                let raw = crate::treesitter::walk_nodes(&mut cursor, source, count);
                let t = SyntaxTree::from_raw(&raw);
                proof {
                    assert forall|i: int| 0 <= i < ns.len() implies node_is(#[trigger] t.nodes@[i], ns[i], source@) by {
                        assert(crate::treesitter::raw_matches(raw@[i], ns[i], source@));
                    }
                }
                Some(t)
            },
            None => None,
        }
    }

    /// Reads the tests, fixtures and imports of the Python file `path` whose
    /// text is `source`, from the tree tree-sitter's Python grammar builds
    /// for it.
    pub fn parse_source(&mut self, source: &str, path: &str) -> (r: Result<ParsedModule, ParserError>)
        requires
            old(self).ready(),
        ensures
            final(self).ready(),
            r matches Ok(m) && python_module(m, source@, path@),
            r matches Ok(m) ==> (crate::text::utf8_len(source@) <= u32::MAX ==> forall|k: int|
                0 <= k < m.test_functions@.len() ==> (#[trigger] m.test_functions@[k]).line <= m.test_functions@[k].end_line),
    {
        let st = self.syntax_tree(source);
        assert(st is Some);
        match st {
            Some(t) => {
                let m = module_from_tree(&t, source, path);
                assert(python_tree(t, source@) && module_of(m, t, source@, path@));
                assert(python_module(m, source@, path@));
                proof {
                    if crate::text::utf8_len(source@) <= u32::MAX {
                        lemma_test_lines_ordered(m, t, source@, path@);
                    }
                }
                Ok(m)
            },
            // A ready parser always gives a tree; this arm is never taken.
            None => Err(ParserError::IncompatibleLanguage),
        }
    }
}

/// The first function definition starting on `line` among the first `n`
/// children `cs` of the module, directly or under a decorated definition.
pub open spec fn function_at_line_in(t: SyntaxTree, cs: Seq<usize>, n: int, line: usize) -> Option<int>
    decreases n,
{
    if n <= 0 {
        None
    } else {
        match function_at_line_in(t, cs, n - 1, line) {
            Some(f) => Some(f),
            None => {
                let c = cs[n - 1] as int;
                if kind(t, c) == "function_definition"@ && line_of(t.nodes@[c].start_row) == line {
                    Some(c)
                } else if kind(t, c) == "decorated_definition"@ {
                    decorated_function_at_line(t, children(t, c), children(t, c).len() as int, line)
                } else {
                    None
                }
            },
        }
    }
}

/// The first function definition starting on `line` among the first `n`
/// children `gs` of a decorated definition.
pub open spec fn decorated_function_at_line(t: SyntaxTree, gs: Seq<usize>, n: int, line: usize) -> Option<int>
    decreases n,
{
    if n <= 0 {
        None
    } else {
        match decorated_function_at_line(t, gs, n - 1, line) {
            Some(f) => Some(f),
            None => {
                let g = gs[n - 1] as int;
                if kind(t, g) == "function_definition"@ && line_of(t.nodes@[g].start_row) == line {
                    Some(g)
                } else {
                    None
                }
            },
        }
    }
}

/// The function definition of the module that starts on `line`.
pub open spec fn function_at_line(t: SyntaxTree, line: usize) -> Option<int> {
    function_at_line_in(t, children(t, 0), children(t, 0).len() as int, line)
}

/// Node `j` calls a random function, or some function of `random`.
pub open spec fn random_site_at(t: SyntaxTree, j: int) -> bool {
    kind(t, j) == "call"@ && match field_child(t, j, "function"@) {
        Some(f) => random_functions().contains(text(t, f)) || (kind(t, f) == "attribute"@ && field_text_is(
            t,
            f,
            "object"@,
            "random"@,
        )),
        None => false,
    }
}

/// Node `j` runs a process (by a listed function or some function of
/// `subprocess`) without a `timeout=` argument.
pub open spec fn unguarded_subprocess_at(t: SyntaxTree, j: int) -> bool {
    kind(t, j) == "call"@ && match field_child(t, j, "function"@) {
        Some(f) => (subprocess_functions().contains(text(t, f)) || (kind(t, f) == "attribute"@ && field_text_is(
            t,
            f,
            "object"@,
            "subprocess"@,
        ))) && !has_timeout_kwarg(t, j),
        None => false,
    }
}

/// The call sites the rule looks for: random calls, or process calls
/// without a timeout.
pub open spec fn call_site_at(t: SyntaxTree, j: int, subprocess: bool) -> bool {
    if subprocess {
        unguarded_subprocess_at(t, j)
    } else {
        random_site_at(t, j)
    }
}

/// The lines of the call sites among the nodes `[a, b)`, in order.
pub open spec fn call_site_lines(t: SyntaxTree, a: int, b: int, subprocess: bool) -> Seq<usize>
    decreases b - a,
{
    if b <= a {
        Seq::empty()
    } else {
        let p = call_site_lines(t, a, b - 1, subprocess);
        if call_site_at(t, b - 1, subprocess) {
            p.push(line_of(t.nodes@[b - 1].start_row))
        } else {
            p
        }
    }
}

/// The lines to report for the test starting on `line`: those of the call
/// sites in the body of its definition, or the test's own line when there
/// are none or the definition is not found.
pub open spec fn site_lines(t: SyntaxTree, line: usize, subprocess: bool) -> Seq<usize> {
    match function_at_line(t, line) {
        Some(f) => match field_child(t, f, "body"@) {
            Some(b) => {
                let ls = call_site_lines(t, b, end(t, b), subprocess);
                if ls.len() == 0 {
                    seq![line]
                } else {
                    ls
                }
            },
            None => seq![line],
        },
        None => seq![line],
    }
}

proof fn lemma_decorated_stable(t: SyntaxTree, gs: Seq<usize>, a: int, b: int, line: usize)
    requires
        0 <= a <= b,
        decorated_function_at_line(t, gs, a, line) is Some,
    ensures
        decorated_function_at_line(t, gs, b, line) == decorated_function_at_line(t, gs, a, line),
    decreases b - a,
{
    if a < b {
        lemma_decorated_stable(t, gs, a, b - 1, line);
    }
}

proof fn lemma_function_at_line_stable(t: SyntaxTree, cs: Seq<usize>, a: int, b: int, line: usize)
    requires
        0 <= a <= b,
        function_at_line_in(t, cs, a, line) is Some,
    ensures
        function_at_line_in(t, cs, b, line) == function_at_line_in(t, cs, a, line),
    decreases b - a,
{
    if a < b {
        lemma_function_at_line_stable(t, cs, a, b - 1, line);
    }
}

/// The function definition of the module that starts on `line`, directly
/// or under a decorator.
pub fn find_function_node(t: &SyntaxTree, line: usize) -> (r: Option<usize>)
    requires
        wf(*t),
        t.nodes@.len() >= 1,
    ensures
        r is None <==> function_at_line(*t, line) is None,
        r matches Some(f) ==> function_at_line(*t, line) == Some(f as int) && f < t.nodes@.len(),
{
    let cs = &t.nodes[0].children;
    let mut k: usize = 0;
    while k < cs.len()
        invariant
            wf(*t),
            t.nodes@.len() >= 1,
            cs@ == children(*t, 0),
            k <= cs@.len(),
            function_at_line_in(*t, cs@, k as int, line) is None,
        decreases cs.len() - k,
    {
        proof {
            lemma_child_nested(*t, 0, k as int);
        }
        let c = cs[k];
        if kind_is(t, c, "function_definition") && line_of_exec(t.nodes[c].start_row) == line {
            proof {
                lemma_function_at_line_stable(*t, cs@, k + 1, cs@.len() as int, line);
            }
            return Some(c);
        }
        if kind_is(t, c, "decorated_definition") {
            let gs = &t.nodes[c].children;
            let mut m: usize = 0;
            while m < gs.len()
                invariant
                    wf(*t),
                    c < t.nodes@.len(),
                    t.nodes@.len() >= 1,
                    cs@ == children(*t, 0),
                    k < cs@.len(),
                    cs@[k as int] == c,
                    function_at_line_in(*t, cs@, k as int, line) is None,
                    !(kind(*t, c as int) == "function_definition"@ && line_of(t.nodes@[c as int].start_row) == line),
                    kind(*t, c as int) == "decorated_definition"@,
                    gs@ == children(*t, c as int),
                    m <= gs@.len(),
                    decorated_function_at_line(*t, gs@, m as int, line) is None,
                decreases gs.len() - m,
            {
                proof {
                    lemma_child_nested(*t, c as int, m as int);
                }
                let g = gs[m];
                if kind_is(t, g, "function_definition") && line_of_exec(t.nodes[g].start_row) == line {
                    proof {
                        lemma_decorated_stable(*t, gs@, m + 1, gs@.len() as int, line);
                        assert(function_at_line_in(*t, cs@, k + 1, line) == Some(g as int));
                        lemma_function_at_line_stable(*t, cs@, k + 1, cs@.len() as int, line);
                    }
                    return Some(g);
                }
                m = m + 1;
            }
            assert(gs@.len() == children(*t, c as int).len());
        }
        k = k + 1;
    }
    None
}

fn call_site_exec(t: &SyntaxTree, j: usize, subprocess: bool) -> (r: bool)
    requires
        wf(*t),
        j < t.nodes@.len(),
    ensures
        r == call_site_at(*t, j as int, subprocess),
{
    if !kind_is(t, j, "call") {
        return false;
    }
    let f = match field_child_exec(t, j, "function") {
        Some(f) => f,
        None => {
            return false;
        },
    };
    let ft = t.nodes[f].text.as_str();
    if subprocess {
        (str_in(ft, &subprocess_functions_list()) || (kind_is(t, f, "attribute") && field_text_is_exec(
            t,
            f,
            "object",
            "subprocess",
        ))) && !call_has_timeout_kwarg(t, j)
    } else {
        str_in(ft, &random_functions_list()) || (kind_is(t, f, "attribute") && field_text_is_exec(
            t,
            f,
            "object",
            "random",
        ))
    }
}

/// The lines to report for the test starting on `line`.
pub fn site_lines_exec(t: &SyntaxTree, line: usize, subprocess: bool) -> (r: Vec<usize>)
    requires
        wf(*t),
        t.nodes@.len() >= 1,
    ensures
        r@ == site_lines(*t, line, subprocess),
{
    let f = match find_function_node(t, line) {
        Some(f) => f,
        None => {
            return vec![line];
        },
    };
    let b = match field_child_exec(t, f, "body") {
        Some(b) => b,
        None => {
            return vec![line];
        },
    };
    let out = collect_call_lines(t, b, subprocess);
    if out.len() == 0 {
        vec![line]
    } else {
        out
    }
}

/// The lines of the call sites in the subtree of node `i`, in order:
/// random calls, or process calls without a timeout.
pub fn collect_call_lines(t: &SyntaxTree, i: usize, subprocess: bool) -> (r: Vec<usize>)
    requires
        wf(*t),
        i < t.nodes@.len(),
    ensures
        r@ == call_site_lines(*t, i as int, end(*t, i as int), subprocess),
{
    let e = t.nodes[i].end;
    let mut out: Vec<usize> = Vec::new();
    let mut j: usize = i;
    while j < e
        invariant
            wf(*t),
            i <= j <= e,
            e == end(*t, i as int),
            e <= t.nodes@.len(),
            out@ == call_site_lines(*t, i as int, j as int, subprocess),
        decreases e - j,
    {
        if call_site_exec(t, j, subprocess) {
            out.push(line_of_exec(t.nodes[j].start_row));
        }
        j = j + 1;
    }
    out
}

/// The lines of the random calls in the subtree of node `i`, in order.
pub fn collect_random_calls(t: &SyntaxTree, i: usize) -> (r: Vec<usize>)
    requires
        wf(*t),
        i < t.nodes@.len(),
    ensures
        r@ == call_site_lines(*t, i as int, end(*t, i as int), false),
{
    collect_call_lines(t, i, false)
}

/// The lines of the process calls without a timeout in the subtree of node
/// `i`, in order.
pub fn collect_subprocess_calls_without_timeout(t: &SyntaxTree, i: usize) -> (r: Vec<usize>)
    requires
        wf(*t),
        i < t.nodes@.len(),
    ensures
        r@ == call_site_lines(*t, i as int, end(*t, i as int), true),
{
    collect_call_lines(t, i, true)
}

} // verus!
