//! The builtins: what each of them prints and changes.
use crate::lexer::{is_valid_identifier, line_words, valid_identifier};
use crate::quoting::{
    in_double_quotes, is_name, law_both_parameter_forms_agree, law_quoted_parameter_is_one_word,
};
use crate::table::Table;
use crate::text::{
    chars_of, find_from, join, join_from, lemma_span, span, string_of, texts, up_to,
};
use vstd::prelude::*;
use vstd::string::*;

verus! {

/// What a builtin prints.
pub struct Output {
    /// The text for standard output.
    pub out: String,
    /// The text for standard error.
    pub err: String,
}

/// The content of an `Output`.
pub struct OutputView {
    /// The text for standard output.
    pub out: Seq<char>,
    /// The text for standard error.
    pub err: Seq<char>,
}

impl View for Output {
    type V = OutputView;

    open spec fn view(&self) -> OutputView {
        OutputView { out: self.out@, err: self.err@ }
    }
}

/// Nothing printed.
pub open spec fn silent() -> OutputView {
    OutputView { out: seq![], err: seq![] }
}

/// A text on standard output.
pub open spec fn says(out: Seq<char>) -> OutputView {
    OutputView { out, err: seq![] }
}

/// A text on standard error.
pub open spec fn complains(err: Seq<char>) -> OutputView {
    OutputView { out: seq![], err }
}

/// Prints nothing.
pub fn no_output() -> (r: Output)
    ensures
        r@ == silent(),
{
    Output { out: String::new(), err: String::new() }
}

/// Prints a text on standard output.
pub fn output(out: String) -> (r: Output)
    ensures
        r@ == says(out@),
{
    Output { out, err: String::new() }
}

/// Prints a text on standard error.
pub fn complaint(err: String) -> (r: Output)
    ensures
        r@ == complains(err@),
{
    Output { out: String::new(), err }
}

/// The commands that the shell runs itself.
pub open spec fn builtin_name(name: Seq<char>) -> bool {
    name == "exit"@ || name == "echo"@ || name == "pwd"@ || name == "cd"@ || name == "type"@ || name
        == "complete"@ || name == "jobs"@ || name == "history"@ || name == "declare"@
}

/// Whether the shell runs the command itself.
pub fn is_builtin(name: &str) -> (r: bool)
    ensures
        r == builtin_name(name@),
{
    str::eq(name, "exit") || str::eq(name, "echo") || str::eq(name, "pwd") || str::eq(name, "cd")
        || str::eq(name, "type") || str::eq(name, "complete") || str::eq(name, "jobs") || str::eq(
        name,
        "history",
    ) || str::eq(name, "declare")
}

/// What `echo` prints: its arguments with blanks between them.
pub open spec fn echo_text(words: Seq<Seq<char>>) -> Seq<char> {
    join(words.skip(1), " "@) + "\n"@
}

/// What `echo` prints. The first word is the command itself.
pub fn echo(words: &Vec<String>) -> (r: String)
    requires
        words@.len() > 0,
    ensures
        r@ == echo_text(texts(words@)),
{
    let mut r = join_from(words, 1, " ");
    r.append("\n");
    r
}

/// What `pwd` prints of the current directory.
pub open spec fn directory_text(dir: Seq<char>) -> Seq<char> {
    dir + "\n"@
}

/// What `pwd` prints of the current directory.
pub fn print_directory(dir: &str) -> (r: String)
    ensures
        r@ == directory_text(dir@),
{
    let mut r = dir.to_owned();
    r.append("\n");
    r
}

/// What `type` is asked about: its first argument, the empty name where it has none.
pub open spec fn type_target(words: Seq<Seq<char>>) -> Seq<char> {
    if words.len() > 1 {
        words[1]
    } else {
        seq![]
    }
}

/// What `type` is asked about. The first word is the command itself.
pub fn asked_type(words: &Vec<String>) -> (r: String)
    ensures
        r@ == type_target(texts(words@)),
{
    if words.len() > 1 {
        words[1].clone()
    } else {
        String::new()
    }
}

/// What `type` says of a name, given the place of the program of that name, if there is one:
/// whether it knows the name, and the text.
pub open spec fn type_text(name: Seq<char>, place: Option<Seq<char>>) -> (bool, Seq<char>) {
    if builtin_name(name) {
        (true, name + " is a shell builtin\n"@)
    } else {
        match place {
            Some(path) => (true, name + " is "@ + path + "\n"@),
            None => (false, name + ": not found\n"@),
        }
    }
}

/// The text of a string that may be there.
pub open spec fn text_of(s: Option<String>) -> Option<Seq<char>> {
    match s {
        Some(s) => Some(s@),
        None => None,
    }
}

/// What `type` says of a name, given the place of the program of that name, and whether it
/// knows the name.
fn describe_type(name: &str, place: &Option<String>) -> (r: (bool, String))
    ensures
        r.0 == type_text(name@, text_of(*place)).0,
        r.1@ == type_text(name@, text_of(*place)).1,
{
    let mut text = name.to_owned();
    if is_builtin(name) {
        text.append(" is a shell builtin\n");
        return (true, text);
    }
    match place {
        Some(path) => {
            text.append(" is ");
            text.append(path.as_str());
            text.append("\n");
            (true, text)
        },
        None => {
            text.append(": not found\n");
            (false, text)
        },
    }
}

/// What `type` prints of a name: on standard error where it does not know it.
pub open spec fn type_output(name: Seq<char>, place: Option<Seq<char>>) -> OutputView {
    let (known, text) = type_text(name, place);
    if known {
        says(text)
    } else {
        complains(text)
    }
}

/// What `type` prints of a name, given the place of the program of that name.
pub fn print_type(name: &str, place: &Option<String>) -> (r: Output)
    ensures
        r@ == type_output(name@, text_of(*place)),
{
    let (known, text) = describe_type(name, place);
    if known {
        output(text)
    } else {
        complaint(text)
    }
}

/// What a builtin writes where it stands in a pipeline, given the current directory and the
/// place of the program that `type` is asked about: everything goes on to the next command.
pub open spec fn pipeline_text(
    words: Seq<Seq<char>>,
    dir: Option<Seq<char>>,
    place: Option<Seq<char>>,
) -> Seq<char> {
    if words[0] == "echo"@ {
        echo_text(words)
    } else if words[0] == "pwd"@ {
        match dir {
            Some(d) => directory_text(d),
            None => seq![],
        }
    } else if words[0] == "type"@ {
        type_text(type_target(words), place).1
    } else {
        seq![]
    }
}

/// What a builtin writes where it stands in a pipeline. It is the same whatever the command
/// before it wrote.
pub fn run_builtin_in_pipeline(
    words: &Vec<String>,
    dir: &Option<String>,
    place: &Option<String>,
) -> (r: String)
    requires
        words@.len() > 0,
    ensures
        r@ == pipeline_text(texts(words@), text_of(*dir), text_of(*place)),
{
    let name = words[0].as_str();
    assert(texts(words@)[0] == name@);
    if str::eq(name, "echo") {
        echo(words)
    } else if str::eq(name, "pwd") {
        match dir {
            Some(d) => print_directory(d.as_str()),
            None => String::new(),
        }
    } else if str::eq(name, "type") {
        describe_type(asked_type(words).as_str(), place).1
    } else {
        String::new()
    }
}

/// What `complete` prints and how it changes the completion scripts. `-C` gives a command its
/// script, `-r` takes it away and `-p` shows it; where an argument is missing, and for
/// anything else, nothing happens.
pub open spec fn complete_effect(
    words: Seq<Seq<char>>,
    scripts: Map<Seq<char>, Seq<char>>,
) -> (OutputView, Map<Seq<char>, Seq<char>>) {
    if words.len() > 3 && words[1] == "-C"@ {
        (silent(), scripts.insert(words[3], words[2]))
    } else if words.len() > 2 && words[1] == "-r"@ {
        (silent(), scripts.remove(words[2]))
    } else if words.len() > 2 && words[1] == "-p"@ {
        if scripts.contains_key(words[2]) {
            (says("complete -C '"@ + scripts[words[2]] + "' "@ + words[2] + "\n"@), scripts)
        } else {
            (complains("complete: "@ + words[2] + ": no completion specification\n"@), scripts)
        }
    } else {
        (silent(), scripts)
    }
}

/// Runs `complete`. The first word is the command itself.
pub fn complete(words: &Vec<String>, scripts: &mut Table) -> (r: Output)
    ensures
        r@ == complete_effect(texts(words@), old(scripts)@).0,
        final(scripts)@ == complete_effect(texts(words@), old(scripts)@).1,
{
    proof {
        lemma_flags();
    }
    if words.len() < 2 {
        return no_output();
    }
    let flag = words[1].as_str();
    if str::eq(flag, "-C") {
        if words.len() > 3 {
            scripts.set(words[3].clone(), words[2].clone());
        }
        return no_output();
    }
    if str::eq(flag, "-r") {
        if words.len() > 2 {
            scripts.remove(words[2].as_str());
        }
        return no_output();
    }
    if str::eq(flag, "-p") && words.len() > 2 {
        let command = words[2].as_str();
        return match scripts.get(command) {
            Some(script) => {
                let mut text = "complete -C '".to_owned();
                text.append(script.as_str());
                text.append("' ");
                text.append(command);
                text.append("\n");
                output(text)
            },
            None => {
                let mut text = "complete: ".to_owned();
                text.append(command);
                text.append(": no completion specification\n");
                complaint(text)
            },
        };
    }
    no_output()
}

/// The flags of `complete` differ.
proof fn lemma_flags()
    ensures
        "-C"@ != "-r"@,
        "-C"@ != "-p"@,
        "-r"@ != "-p"@,
{
    reveal_strlit("-C");
    reveal_strlit("-r");
    reveal_strlit("-p");
    assert("-C"@[1] != "-r"@[1]);
    assert("-C"@[1] != "-p"@[1]);
    assert("-r"@[1] != "-p"@[1]);
}

/// The message for a name that cannot be declared.
pub open spec fn invalid_name(arg: Seq<char>) -> Seq<char> {
    "declare: `"@ + arg + "': not a valid identifier\n"@
}

/// What one argument of `declare` changes, and what it prints on standard error: `NAME=VALUE`
/// sets a variable, and `NAME` alone makes it empty where it is not set.
pub open spec fn declare_one(
    arg: Seq<char>,
    vars: Map<Seq<char>, Seq<char>>,
) -> (Seq<char>, Map<Seq<char>, Seq<char>>) {
    let k = span(arg, up_to('='));
    let name = arg.take(k);
    if !valid_identifier(name) {
        (invalid_name(arg), vars)
    } else if k < arg.len() {
        (seq![], vars.insert(name, arg.skip(k + 1)))
    } else if vars.contains_key(name) {
        (seq![], vars)
    } else {
        (seq![], vars.insert(name, seq![]))
    }
}

/// What the arguments of `declare` change one after the other, and what they print on
/// standard error.
pub open spec fn declare_all(
    args: Seq<Seq<char>>,
    vars: Map<Seq<char>, Seq<char>>,
) -> (Seq<char>, Map<Seq<char>, Seq<char>>)
    decreases args.len(),
{
    if args.len() == 0 {
        (seq![], vars)
    } else {
        let (err, before) = declare_all(args.drop_last(), vars);
        let (last_err, after) = declare_one(args.last(), before);
        (err + last_err, after)
    }
}

/// What `declare` prints and how it changes the variables: with `-p` it shows one, otherwise
/// it sets those that its arguments name.
pub open spec fn declare_effect(
    words: Seq<Seq<char>>,
    vars: Map<Seq<char>, Seq<char>>,
) -> (OutputView, Map<Seq<char>, Seq<char>>) {
    if words.len() > 1 && words[1] == "-p"@ {
        if words.len() > 2 {
            let name = words[2];
            if vars.contains_key(name) {
                (says("declare -- "@ + name + "=\""@ + vars[name] + "\"\n"@), vars)
            } else {
                (complains("declare: "@ + name + ": not found\n"@), vars)
            }
        } else {
            (silent(), vars)
        }
    } else {
        let (err, after) = declare_all(words.skip(1), vars);
        (complains(err), after)
    }
}

/// Runs `declare` on one argument, and appends what it prints on standard error to `err`.
fn declare_arg(arg: &String, vars: &mut Table, err: &mut String)
    ensures
        final(vars)@ == declare_one(arg@, old(vars)@).1,
        final(err)@ == old(err)@ + declare_one(arg@, old(vars)@).0,
{
    let chars = chars_of(arg.as_str());
    assert(chars@.skip(0) =~= arg@);
    let eq: usize = find_from(&chars, 0, '=');
    let name = string_of(&chars, 0, eq);
    assert(name@ =~= arg@.take(eq as int));
    assert(err@ =~= err@ + Seq::<char>::empty());
    if !is_valid_identifier(name.as_str()) {
        err.append("declare: `");
        err.append(arg.as_str());
        err.append("': not a valid identifier\n");
        assert(err@ =~= old(err)@ + invalid_name(arg@));
    } else if eq < chars.len() {
        let value = string_of(&chars, eq + 1, chars.len());
        assert(value@ =~= arg@.skip(eq + 1));
        vars.set(name, value);
    } else if vars.get(name.as_str()).is_none() {
        vars.set(name, String::new());
    }
}

/// Runs `declare`. The first word is the command itself.
pub fn declare(words: &Vec<String>, vars: &mut Table) -> (r: Output)
    requires
        words@.len() > 0,
    ensures
        r@ == declare_effect(texts(words@), old(vars)@).0,
        final(vars)@ == declare_effect(texts(words@), old(vars)@).1,
{
    if words.len() > 1 && str::eq(words[1].as_str(), "-p") {
        if words.len() < 3 {
            return no_output();
        }
        let name = words[2].as_str();
        return match vars.get(name) {
            Some(value) => {
                let mut text = "declare -- ".to_owned();
                text.append(name);
                text.append("=\"");
                text.append(value.as_str());
                text.append("\"\n");
                output(text)
            },
            None => {
                let mut text = "declare: ".to_owned();
                text.append(name);
                text.append(": not found\n");
                complaint(text)
            },
        };
    }
    let ghost args = texts(words@).skip(1);
    let mut err = String::new();
    let mut i: usize = 1;
    while i < words.len()
        invariant
            1 <= i <= words@.len(),
            args == texts(words@).skip(1),
            err@ == declare_all(args.take(i - 1), old(vars)@).0,
            vars@ == declare_all(args.take(i - 1), old(vars)@).1,
        decreases words@.len() - i,
    {
        let ghost next = args.take(i as int);
        assert(next.drop_last() =~= args.take(i - 1));
        assert(next.last() == words@[i as int]@);
        declare_arg(&words[i], vars, &mut err);
        i = i + 1;
    }
    assert(args.take(i - 1) =~= args);
    complaint(err)
}

/// The argument `NAME=VALUE`.
pub open spec fn assignment(name: Seq<char>, value: Seq<char>) -> Seq<char> {
    name + seq!['='] + value
}

/// `declare NAME=VALUE` gives the variable that value, changes no other, and prints nothing;
/// `declare -p NAME` shows it after that.
pub proof fn law_declared_value_is_shown(
    name: Seq<char>,
    value: Seq<char>,
    vars: Map<Seq<char>, Seq<char>>,
)
    requires
        valid_identifier(name),
    ensures
        declare_effect(seq!["declare"@, assignment(name, value)], vars) == (
            silent(),
            vars.insert(name, value),
        ),
        declare_effect(seq!["declare"@, "-p"@, name], vars.insert(name, value)) == (
            says("declare -- "@ + name + "=\""@ + value + "\"\n"@),
            vars.insert(name, value),
        ),
{
    let arg = assignment(name, value);
    let words = seq!["declare"@, arg];
    assert forall|i: int| 0 <= i < name.len() implies up_to('=')(arg[i]) by {
        assert(arg[i] == name[i]);
        assert(i > 0 ==> crate::chars::name_char(name[i]));
    }
    assert(arg[name.len() as int] == '=');
    lemma_span(arg, up_to('='), name.len() as int);
    assert(arg.take(name.len() as int) =~= name);
    assert(arg.skip(name.len() as int + 1) =~= value);
    reveal_strlit("-p");
    assert(arg[0] == name[0]);
    assert("-p"@[0] == '-');
    assert(arg != "-p"@);
    let args = words.skip(1);
    assert(args =~= seq![arg]);
    assert(args.drop_last() =~= seq![]);
    assert(declare_all(args.drop_last(), vars) == (Seq::<char>::empty(), vars));
    assert(Seq::<char>::empty() + Seq::<char>::empty() =~= Seq::<char>::empty());
}

/// What `declare` sets is what `$NAME` stands for in the lines that follow, between double
/// quotes as it is, and outside quotes wherever it is not empty.
pub proof fn law_declared_value_is_expanded(
    name: Seq<char>,
    value: Seq<char>,
    vars: Map<Seq<char>, Seq<char>>,
)
    requires
        valid_identifier(name),
    ensures
        ({
            let after = declare_effect(seq!["declare"@, assignment(name, value)], vars).1;
            &&& line_words(in_double_quotes(seq!['$'] + name), after) == seq![value]
            &&& value.len() > 0 ==> line_words(seq!['$'] + name, after) == seq![value]
            &&& value.len() == 0 ==> line_words(seq!['$'] + name, after).len() == 0
        }),
{
    law_declared_value_is_shown(name, value, vars);
    let after = vars.insert(name, value);
    assert(is_name(name)) by {
        assert forall|i: int| 0 <= i < name.len() implies crate::chars::name_char(name[i]) by {}
    }
    law_quoted_parameter_is_one_word(name, after);
    law_both_parameter_forms_agree(name, after);
}

/// A name that is no identifier is refused: nothing is set, and the message names the argument.
pub proof fn law_invalid_name_is_refused(
    name: Seq<char>,
    value: Seq<char>,
    vars: Map<Seq<char>, Seq<char>>,
)
    requires
        !valid_identifier(name),
        !name.contains('='),
    ensures
        declare_one(assignment(name, value), vars) == (
            invalid_name(assignment(name, value)),
            vars,
        ),
{
    let arg = assignment(name, value);
    assert forall|i: int| 0 <= i < name.len() implies up_to('=')(arg[i]) by {
        assert(arg[i] == name[i]);
        assert(name.contains(name[i]));
    }
    assert(arg[name.len() as int] == '=');
    lemma_span(arg, up_to('='), name.len() as int);
    assert(arg.take(name.len() as int) =~= name);
}

/// `complete -p` shows what `complete -C` set, and `complete -r` takes it away again.
pub proof fn law_completion_scripts_are_kept(
    script: Seq<char>,
    command: Seq<char>,
    scripts: Map<Seq<char>, Seq<char>>,
)
    ensures
        ({
            let set = complete_effect(seq!["complete"@, "-C"@, script, command], scripts).1;
            let gone = complete_effect(seq!["complete"@, "-r"@, command], set).1;
            &&& complete_effect(seq!["complete"@, "-p"@, command], set).0 == says(
                "complete -C '"@ + script + "' "@ + command + "\n"@,
            )
            &&& complete_effect(seq!["complete"@, "-p"@, command], gone).0 == complains(
                "complete: "@ + command + ": no completion specification\n"@,
            )
            &&& !scripts.contains_key(command) ==> gone == scripts
        }),
{
    lemma_flags();
    let set = scripts.insert(command, script);
    assert(complete_effect(seq!["complete"@, "-C"@, script, command], scripts).1 == set);
    let gone = set.remove(command);
    assert(complete_effect(seq!["complete"@, "-r"@, command], set).1 == gone);
    if !scripts.contains_key(command) {
        assert(gone =~= scripts);
    }
}

/// The builtins are nine.
pub proof fn law_builtins(name: Seq<char>)
    ensures
        builtin_name(name) <==> seq![
            "exit"@,
            "echo"@,
            "pwd"@,
            "cd"@,
            "type"@,
            "complete"@,
            "jobs"@,
            "history"@,
            "declare"@,
        ].contains(name),
{
    let all = seq![
        "exit"@,
        "echo"@,
        "pwd"@,
        "cd"@,
        "type"@,
        "complete"@,
        "jobs"@,
        "history"@,
        "declare"@,
    ];
    assert(all[0] == "exit"@ && all[1] == "echo"@ && all[2] == "pwd"@ && all[3] == "cd"@);
    assert(all[4] == "type"@ && all[5] == "complete"@ && all[6] == "jobs"@);
    assert(all[7] == "history"@ && all[8] == "declare"@);
}

/// `echo` prints its arguments as they are, with a blank between each two, and ends the line.
pub proof fn law_echo(command: Seq<char>, args: Seq<Seq<char>>)
    ensures
        echo_text(seq![command] + args) == join(args, seq![' ']) + seq!['\n'],
{
    reveal_strlit(" ");
    reveal_strlit("\n");
    assert(" "@ =~= seq![' ']);
    assert("\n"@ =~= seq!['\n']);
    assert((seq![command] + args).skip(1) =~= args);
}

/// What `type` prints: on standard output that a name is a builtin, or else where its program is,
/// and on standard error that there is none. It is asked about its first argument.
pub proof fn law_type(name: Seq<char>, path: Seq<char>, words: Seq<Seq<char>>)
    ensures
        builtin_name(name) ==> type_output(name, Some(path)) == type_output(name, None)
            && type_output(name, None) == (OutputView {
            out: name + " is a shell builtin\n"@,
            err: seq![],
        }),
        !builtin_name(name) ==> type_output(name, Some(path)) == (OutputView {
            out: name + " is "@ + path + "\n"@,
            err: seq![],
        }),
        !builtin_name(name) ==> type_output(name, None) == (OutputView {
            out: seq![],
            err: name + ": not found\n"@,
        }),
        words.len() > 1 ==> type_target(words) == words[1],
        words.len() <= 1 ==> type_target(words) == Seq::<char>::empty(),
{
}

/// In a pipeline `echo` and `pwd` write what they print elsewhere, `pwd` nothing where there is no
/// directory, and `type` writes all that it prints, on whichever output; no other command writes
/// anything here.
pub proof fn law_builtins_in_a_pipeline(
    words: Seq<Seq<char>>,
    dir: Seq<char>,
    here: Option<Seq<char>>,
    place: Option<Seq<char>>,
)
    requires
        words.len() > 0,
    ensures
        words[0] == "echo"@ ==> pipeline_text(words, here, place) == join(
            words.skip(1),
            seq![' '],
        ) + seq!['\n'],
        words[0] == "pwd"@ ==> pipeline_text(words, Some(dir), place) == dir + seq!['\n'],
        words[0] == "pwd"@ ==> pipeline_text(words, None, place) == Seq::<char>::empty(),
        words[0] == "type"@ ==> ({
            let o = type_output(type_target(words), place);
            pipeline_text(words, here, place) == o.out + o.err
        }),
        words[0] != "echo"@ && words[0] != "pwd"@ && words[0] != "type"@ ==> pipeline_text(
            words,
            here,
            place,
        ) == Seq::<char>::empty(),
        directory_text(dir) == dir + seq!['\n'],
{
    reveal_strlit("\n");
    assert("\n"@ =~= seq!['\n']);
    lemma_names_differ();
    assert(words =~= seq![words[0]] + words.skip(1));
    law_echo(words[0], words.skip(1));
    let o = type_output(type_target(words), place);
    let text = type_text(type_target(words), place).1;
    assert(o.out + o.err =~= text);
}

/// The names of the builtins differ.
pub proof fn lemma_names_differ()
    ensures
        "exit"@ != "echo"@,
        "exit"@ != "pwd"@,
        "exit"@ != "cd"@,
        "exit"@ != "type"@,
        "exit"@ != "complete"@,
        "exit"@ != "jobs"@,
        "exit"@ != "history"@,
        "exit"@ != "declare"@,
        "echo"@ != "pwd"@,
        "echo"@ != "cd"@,
        "echo"@ != "type"@,
        "echo"@ != "complete"@,
        "echo"@ != "jobs"@,
        "echo"@ != "history"@,
        "echo"@ != "declare"@,
        "pwd"@ != "cd"@,
        "pwd"@ != "type"@,
        "pwd"@ != "complete"@,
        "pwd"@ != "jobs"@,
        "pwd"@ != "history"@,
        "pwd"@ != "declare"@,
        "cd"@ != "type"@,
        "cd"@ != "complete"@,
        "cd"@ != "jobs"@,
        "cd"@ != "history"@,
        "cd"@ != "declare"@,
        "type"@ != "complete"@,
        "type"@ != "jobs"@,
        "type"@ != "history"@,
        "type"@ != "declare"@,
        "complete"@ != "jobs"@,
        "complete"@ != "history"@,
        "complete"@ != "declare"@,
        "jobs"@ != "history"@,
        "jobs"@ != "declare"@,
        "history"@ != "declare"@,
{
    reveal_strlit("exit");
    reveal_strlit("echo");
    reveal_strlit("pwd");
    reveal_strlit("cd");
    reveal_strlit("type");
    reveal_strlit("complete");
    reveal_strlit("jobs");
    reveal_strlit("history");
    reveal_strlit("declare");
    assert("exit"@[0] == 'e' && "exit"@[1] == 'x' && "echo"@[0] == 'e' && "echo"@[1] == 'c');
    assert("pwd"@[0] == 'p' && "cd"@[0] == 'c' && "cd"@[1] == 'd' && "type"@[0] == 't');
    assert("complete"@[0] == 'c' && "complete"@[1] == 'o' && "jobs"@[0] == 'j');
    assert("history"@[0] == 'h' && "declare"@[0] == 'd');
}

/// What `complete` does. With `-C`, a script and a command it gives the command that script; with
/// `-r` and a command it takes the script of that command away; with `-p` and a command it shows
/// it, or complains that there is none. No other command is touched, and with anything else, or
/// where an argument is missing, nothing happens.
pub proof fn law_complete(words: Seq<Seq<char>>, scripts: Map<Seq<char>, Seq<char>>)
    ensures
        words.len() > 3 && words[1] == "-C"@ ==> complete_effect(words, scripts) == (
            OutputView { out: seq![], err: seq![] },
            scripts.insert(words[3], words[2]),
        ),
        words.len() > 2 && words[1] == "-r"@ ==> complete_effect(words, scripts) == (
            OutputView { out: seq![], err: seq![] },
            scripts.remove(words[2]),
        ),
        words.len() > 2 && words[1] == "-p"@ && scripts.dom().contains(words[2])
            ==> complete_effect(words, scripts) == (
            OutputView {
                out: "complete -C '"@ + scripts[words[2]] + "' "@ + words[2] + "\n"@,
                err: seq![],
            },
            scripts,
        ),
        words.len() > 2 && words[1] == "-p"@ && !scripts.dom().contains(words[2])
            ==> complete_effect(words, scripts) == (
            OutputView {
                out: seq![],
                err: "complete: "@ + words[2] + ": no completion specification\n"@,
            },
            scripts,
        ),
        words.len() <= 2 || (words[1] != "-C"@ && words[1] != "-r"@ && words[1] != "-p"@) || (
        words[1] == "-C"@ && words.len() == 3) ==> complete_effect(words, scripts) == (
            OutputView { out: seq![], err: seq![] },
            scripts,
        ),
{
    lemma_flags();
}

/// What one argument of `declare` does. `NAME=VALUE` sets the variable, whatever the value holds;
/// `NAME` alone makes it empty where it is not set, and nothing else; where the name cannot be
/// declared a message tells so with the argument, and nothing changes.
pub proof fn law_declare_argument(
    name: Seq<char>,
    value: Seq<char>,
    vars: Map<Seq<char>, Seq<char>>,
)
    requires
        !name.contains('='),
    ensures
        valid_identifier(name) ==> declare_one(name + seq!['='] + value, vars) == (
            Seq::<char>::empty(),
            vars.insert(name, value),
        ),
        valid_identifier(name) ==> declare_one(name, vars) == (
            Seq::<char>::empty(),
            if vars.dom().contains(name) {
                vars
            } else {
                vars.insert(name, seq![])
            },
        ),
        !valid_identifier(name) ==> declare_one(name + seq!['='] + value, vars) == (
            "declare: `"@ + (name + seq!['='] + value) + "': not a valid identifier\n"@,
            vars,
        ),
        !valid_identifier(name) ==> declare_one(name, vars) == (
            "declare: `"@ + name + "': not a valid identifier\n"@,
            vars,
        ),
{
    let arg = name + seq!['='] + value;
    let n = name.len() as int;
    assert forall|i: int| 0 <= i < n implies up_to('=')(arg[i]) && up_to('=')(name[i]) by {
        assert(arg[i] == name[i]);
        assert(name.contains(name[i]));
    }
    assert(arg[n] == '=');
    lemma_span(arg, up_to('='), n);
    lemma_span(name, up_to('='), n);
    assert(arg.take(n) =~= name);
    assert(name.take(n) =~= name);
    assert(arg.skip(n + 1) =~= value);
}

/// What `declare` does. With `-p` and a name it shows the value of the variable, or complains that
/// it is not set, and changes nothing; `-p` alone does nothing. Otherwise it takes up its
/// arguments one after the other, each in the state that those before it left.
pub proof fn law_declare(
    words: Seq<Seq<char>>,
    arg: Seq<char>,
    vars: Map<Seq<char>, Seq<char>>,
)
    requires
        words.len() > 0,
    ensures
        words.len() == 1 ==> declare_effect(words, vars) == (
            OutputView { out: seq![], err: seq![] },
            vars,
        ),
        words.len() == 2 && words[1] == "-p"@ ==> declare_effect(words, vars) == (
            OutputView { out: seq![], err: seq![] },
            vars,
        ),
        words.len() > 2 && words[1] == "-p"@ && vars.dom().contains(words[2]) ==> declare_effect(
            words,
            vars,
        ) == (
            OutputView {
                out: "declare -- "@ + words[2] + "=\""@ + vars[words[2]] + "\"\n"@,
                err: seq![],
            },
            vars,
        ),
        words.len() > 2 && words[1] == "-p"@ && !vars.dom().contains(words[2]) ==> declare_effect(
            words,
            vars,
        ) == (
            OutputView { out: seq![], err: "declare: "@ + words[2] + ": not found\n"@ },
            vars,
        ),
        words.push(arg)[1] != "-p"@ ==> ({
            let (o, before) = declare_effect(words, vars);
            let (err, after) = declare_one(arg, before);
            declare_effect(words.push(arg), vars) == (
                OutputView { out: seq![], err: o.err + err },
                after,
            )
        }),
{
    assert(words.len() == 1 ==> words.skip(1) =~= seq![]);
    assert(words.push(arg).skip(1) =~= words.skip(1).push(arg));
    assert(words.skip(1).push(arg).drop_last() =~= words.skip(1));
    assert(words.len() > 1 ==> words.push(arg)[1] == words[1]);
}

} // verus!
