//! What the functions of the task runner promise of their arguments and results.
//!
//! Each law supposes that a function was called, and came to the result that it names. The laws speak
//! of the fields of commands and steps.

use vstd::prelude::*;

use crate::xtask::command::CommandLine;
use crate::xtask::command::check_view;
use crate::xtask::command::feature_args;
use crate::xtask::command::make_build_cmd;
use crate::xtask::command::make_check_cmd;
use crate::xtask::command::make_clippy_cmd;
use crate::xtask::command::make_format_cmd;
use crate::xtask::command::make_install_cmd;
use crate::xtask::command::make_test_cmd;
use crate::xtask::command::make_ui_test_cmd;
use crate::xtask::command::prefixed;
use crate::xtask::text::texts;

verus! {

/// Argument `i` of `cmd`.
pub open spec fn arg(cmd: CommandLine, i: int) -> Seq<char> {
    cmd.args@[i]@
}

/// `text` is an argument of `cmd`.
pub open spec fn has_arg(cmd: CommandLine, text: Seq<char>) -> bool {
    exists|i: int| 0 <= i < cmd.args@.len() && #[trigger] arg(cmd, i) == text
}

/// `cmd` starts `program`, in the environment that there is.
pub open spec fn starts(cmd: CommandLine, program: Seq<char>) -> bool {
    cmd.program@ == program && cmd.envs@.len() == 0
}

/// From argument `h` on `cmd` has `--features` with each of `names`, which `prefix` goes before, in
/// order.
pub open spec fn selects(cmd: CommandLine, h: int, prefix: Seq<char>, names: Seq<String>) -> bool {
    &&& h + 2 * names.len() <= cmd.args@.len()
    &&& forall|i: int|
        #![trigger names[i]]
        0 <= i < names.len() ==> {
            &&& arg(cmd, h + 2 * i) == "--features"@
            &&& arg(cmd, h + 2 * i + 1) == prefix + names[i]@
        }
}

/// `a` has the arguments of `b` up to `n`.
pub open spec fn shares_args(a: CommandLine, b: CommandLine, n: int) -> bool {
    &&& n <= a.args@.len()
    &&& n <= b.args@.len()
    &&& forall|i: int| 0 <= i < n ==> #[trigger] arg(a, i) == arg(b, i)
}

/// `a` and `b` are the same command.
pub open spec fn same_command(a: CommandLine, b: CommandLine) -> bool {
    &&& a.program@ == b.program@
    &&& a.args@.len() == b.args@.len()
    &&& shares_args(a, b, a.args@.len() as int)
    &&& a.envs@.len() == b.envs@.len()
    &&& forall|i: int|
        #![trigger a.envs@[i]]
        0 <= i < a.envs@.len() ==> a.envs@[i].0@ == b.envs@[i].0@ && a.envs@[i].1@
            == b.envs@[i].1@
}

/// What a command says is what its fields say.
pub(crate) proof fn lemma_fields(cmd: CommandLine)
    ensures
        cmd@.program == cmd.program@,
        cmd@.args.len() == cmd.args@.len(),
        forall|i: int| 0 <= i < cmd.args@.len() ==> #[trigger] arg(cmd, i) == cmd@.args[i],
        cmd@.envs.len() == cmd.envs@.len(),
        forall|i: int|
            #![trigger cmd.envs@[i]]
            0 <= i < cmd.envs@.len() ==> cmd@.envs[i] == (cmd.envs@[i].0@, cmd.envs@[i].1@),
{
}

/// Words that are not one another.
proof fn lemma_words()
    ensures
        "--"@ != "--features"@,
        "--"@ != "test"@,
        "--"@ != "--workspace"@,
        "--"@ != "--no-default-features"@,
        "--"@.len() == 2,
        "--"@[0] == '-',
        "mea/"@.len() == 4,
        "mea/"@[0] == 'm',
{
    reveal_strlit("--");
    reveal_strlit("--features");
    reveal_strlit("test");
    reveal_strlit("--workspace");
    reveal_strlit("--no-default-features");
    reveal_strlit("mea/");
    assert("--"@.len() != "--features"@.len());
    assert("--"@.len() != "test"@.len());
    assert("--"@.len() != "--workspace"@.len());
    assert("--"@.len() != "--no-default-features"@.len());
}

/// A command whose arguments are `head`, the features and `tail` selects the features.
proof fn lemma_selects(
    cmd: CommandLine,
    head: Seq<Seq<char>>,
    prefix: Seq<char>,
    names: Seq<String>,
    tail: Seq<Seq<char>>,
)
    requires
        cmd@.args == head + feature_args(prefixed(prefix, texts(names))) + tail,
    ensures
        cmd.args@.len() == head.len() + 2 * names.len() + tail.len(),
        forall|i: int| 0 <= i < head.len() ==> #[trigger] arg(cmd, i) == head[i],
        selects(cmd, head.len() as int, prefix, names),
        forall|i: int|
            head.len() <= i < head.len() + 2 * names.len() ==> (#[trigger] arg(cmd, i)
                == "--features"@ || exists|j: int|
                0 <= j < names.len() && arg(cmd, i) == prefix + (#[trigger] names[j])@),
        forall|i: int|
            0 <= i < tail.len() ==> #[trigger] tail[i] == arg(
                cmd,
                head.len() + 2 * names.len() + i,
            ),
{
    lemma_fields(cmd);
    let h: int = head.len() as int;
    let words = prefixed(prefix, texts(names));
    let middle = feature_args(words);
    assert(words.len() == names.len());
    assert forall|i: int| 0 <= i < names.len() implies #[trigger] words[i] == prefix + names[i]@ by {}
    assert forall|i: int| #![trigger names[i]] 0 <= i < names.len() implies {
        &&& arg(cmd, h + 2 * i) == "--features"@
        &&& arg(cmd, h + 2 * i + 1) == prefix + names[i]@
    } by {
        assert((2 * i) % 2 == 0 && (2 * i + 1) % 2 == 1 && (2 * i + 1) / 2 == i);
        assert(arg(cmd, h + 2 * i) == middle[2 * i]);
        assert(arg(cmd, h + 2 * i + 1) == middle[2 * i + 1]);
        assert(middle[2 * i + 1] == words[i]);
    }
    assert forall|i: int| h <= i < h + 2 * names.len() implies (#[trigger] arg(cmd, i)
        == "--features"@ || exists|j: int|
        0 <= j < names.len() && arg(cmd, i) == prefix + (#[trigger] names[j])@) by {
        assert(arg(cmd, i) == middle[i - h]);
        if (i - h) % 2 != 0 {
            let j = (i - h) / 2;
            assert(middle[i - h] == words[j]);
            assert(arg(cmd, i) == prefix + names[j]@);
        }
    }
    assert forall|i: int| 0 <= i < tail.len() implies #[trigger] tail[i] == arg(
        cmd,
        head.len() + 2 * names.len() + i,
    ) by {
        assert(arg(cmd, h + middle.len() + i) == tail[i]);
    }
}

/// [`CommandLine::new`] makes a command of the program alone.
pub proof fn law_new_command(program: &str, cmd: CommandLine)
    requires
        call_ensures(CommandLine::new, (program,), cmd),
    ensures
        starts(cmd, program@),
        cmd.args@.len() == 0,
{
    lemma_fields(cmd);
}

/// [`CommandLine::arg`] adds one argument behind those that there are, and changes nothing else.
pub proof fn law_argument_is_added(cmd: &mut CommandLine, text: &str)
    requires
        call_ensures(CommandLine::arg, (cmd, text), ()),
    ensures
        final(cmd).program@ == old(cmd).program@,
        final(cmd).args@.len() == old(cmd).args@.len() + 1,
        shares_args(*final(cmd), *old(cmd), old(cmd).args@.len() as int),
        arg(*final(cmd), old(cmd).args@.len() as int) == text@,
        final(cmd).envs@.len() == old(cmd).envs@.len(),
        forall|i: int|
            #![trigger final(cmd).envs@[i]]
            0 <= i < old(cmd).envs@.len() ==> final(cmd).envs@[i].0@ == old(cmd).envs@[i].0@
                && final(cmd).envs@[i].1@ == old(cmd).envs@[i].1@,
{
    lemma_fields(*old(cmd));
    lemma_fields(*final(cmd));
}

/// [`CommandLine::env`] sets one more environment variable, and changes nothing else.
pub proof fn law_variable_is_set(cmd: &mut CommandLine, name: &str, value: &str)
    requires
        call_ensures(CommandLine::env, (cmd, name, value), ()),
    ensures
        final(cmd).program@ == old(cmd).program@,
        final(cmd).args@.len() == old(cmd).args@.len(),
        shares_args(*final(cmd), *old(cmd), old(cmd).args@.len() as int),
        final(cmd).envs@.len() == old(cmd).envs@.len() + 1,
        final(cmd).envs@.last().0@ == name@,
        final(cmd).envs@.last().1@ == value@,
        forall|i: int|
            #![trigger final(cmd).envs@[i]]
            0 <= i < old(cmd).envs@.len() ==> final(cmd).envs@[i].0@ == old(cmd).envs@[i].0@
                && final(cmd).envs@[i].1@ == old(cmd).envs@[i].1@,
{
    lemma_fields(*old(cmd));
    lemma_fields(*final(cmd));
    assert(final(cmd).envs@[old(cmd).envs@.len() as int] == final(cmd).envs@.last());
}

/// [`make_build_cmd`] builds all targets of all packages, with all features. To be locked adds
/// `--locked`, and nothing else.
pub proof fn law_build_command(locked: CommandLine, free: CommandLine)
    requires
        call_ensures(make_build_cmd, (true,), locked),
        call_ensures(make_build_cmd, (false,), free),
    ensures
        starts(locked, "cargo"@),
        starts(free, "cargo"@),
        free.args@.len() == 7,
        arg(free, 0) == "build"@,
        has_arg(free, "--workspace"@),
        has_arg(free, "--all-features"@),
        has_arg(free, "--tests"@),
        has_arg(free, "--examples"@),
        has_arg(free, "--benches"@),
        has_arg(free, "--bins"@),
        locked.args@.len() == 8,
        shares_args(locked, free, 7),
        arg(locked, 7) == "--locked"@,
{
    lemma_fields(locked);
    lemma_fields(free);
    assert(arg(free, 1) == "--workspace"@ && arg(free, 2) == "--all-features"@ && arg(free, 3)
        == "--tests"@ && arg(free, 4) == "--examples"@ && arg(free, 5) == "--benches"@ && arg(
        free,
        6,
    ) == "--bins"@);
}

/// What the commands that test are.
proof fn lemma_test_command(features: &[String], serial: CommandLine, captured: CommandLine)
    requires
        call_ensures(make_test_cmd, (true, features), serial),
        call_ensures(make_test_cmd, (false, features), captured),
    ensures
        starts(serial, "cargo"@),
        starts(captured, "cargo"@),
        ({
            let n: int = 3 + 2 * features@.len() as int;
            &&& captured.args@.len() == n
            &&& arg(captured, 0) == "test"@
            &&& arg(captured, 1) == "--workspace"@
            &&& arg(captured, 2) == "--no-default-features"@
            &&& selects(captured, 3, "mea/"@, features@)
            &&& selects(serial, 3, "mea/"@, features@)
            &&& !has_arg(captured, "--"@)
            &&& shares_args(serial, captured, n)
            &&& serial.args@.len() == n + 3
            &&& arg(serial, n) == "--"@
            &&& arg(serial, n + 1) == "--nocapture"@
            &&& arg(serial, n + 2) == "--test-threads=1"@
        }),
{
    lemma_words();
    let head = seq!["test"@, "--workspace"@, "--no-default-features"@];
    let tail = seq!["--"@, "--nocapture"@, "--test-threads=1"@];
    let n: int = 3 + 2 * features@.len() as int;
    lemma_fields(serial);
    lemma_fields(captured);
    lemma_selects(serial, head, "mea/"@, features@, tail);
    lemma_selects(captured, head, "mea/"@, features@, Seq::empty());
    assert(arg(captured, 0) == head[0] && arg(captured, 1) == head[1] && arg(captured, 2)
        == head[2]);
    assert(tail[0] == arg(serial, n) && tail[1] == arg(serial, n + 1) && tail[2] == arg(
        serial,
        n + 2,
    ));
    assert forall|i: int| 0 <= i < n implies #[trigger] arg(captured, i) != "--"@ by {
        if i >= 3 && arg(captured, i) != "--features"@ {
            let j = choose|j: int|
                0 <= j < features@.len() && arg(captured, i) == "mea/"@ + (#[trigger] features@[j])@;
            assert(("mea/"@ + features@[j]@)[0] == 'm');
        }
    }
    assert forall|i: int| 0 <= i < n implies #[trigger] arg(serial, i) == arg(captured, i) by {
        assert(serial@.args[i] == captured@.args[i]);
    }
}

/// [`make_test_cmd`] tests the workspace with each of the features of mea and with no other, whether
/// or not output is captured. Not to capture output adds what comes behind `--`, which also has the
/// tests run one at a time, and nothing else.
pub proof fn law_test_command(features: &[String], serial: CommandLine, captured: CommandLine)
    requires
        call_ensures(make_test_cmd, (true, features), serial),
        call_ensures(make_test_cmd, (false, features), captured),
    ensures
        starts(serial, "cargo"@),
        starts(captured, "cargo"@),
        ({
            let n: int = 3 + 2 * features@.len() as int;
            &&& captured.args@.len() == n
            &&& arg(captured, 0) == "test"@
            &&& arg(captured, 1) == "--workspace"@
            &&& arg(captured, 2) == "--no-default-features"@
            &&& forall|i: int|
                #![trigger features@[i]]
                0 <= i < features@.len() ==> (arg(captured, 3 + 2 * i), arg(captured, 3 + 2 * i + 1))
                    == ("--features"@, "mea/"@ + features@[i]@)
            &&& forall|i: int|
                #![trigger features@[i]]
                0 <= i < features@.len() ==> (arg(serial, 3 + 2 * i), arg(serial, 3 + 2 * i + 1))
                    == ("--features"@, "mea/"@ + features@[i]@)
            &&& !has_arg(captured, "--"@)
            &&& shares_args(serial, captured, n)
            &&& serial.args@.len() == n + 3
            &&& arg(serial, n) == "--"@
            &&& arg(serial, n + 1) == "--nocapture"@
            &&& arg(serial, n + 2) == "--test-threads=1"@
        }),
{
    lemma_test_command(features, serial, captured);
}

/// What the commands that run the UI tests are.
proof fn lemma_ui_test_command(
    features: &[String],
    version: &str,
    writing: CommandLine,
    reading: CommandLine,
)
    requires
        call_ensures(make_ui_test_cmd, (features, version, true), writing),
        call_ensures(make_ui_test_cmd, (features, version, false), reading),
    ensures
        starts(reading, "cargo"@),
        ({
            let n: int = 5 + 2 * features@.len() as int;
            &&& reading.args@.len() == n + 6
            &&& arg(reading, 0) == "+"@ + version@
            &&& arg(reading, 1) == "test"@
            &&& arg(reading, 2) == "--package"@
            &&& arg(reading, 3) == "mea"@
            &&& arg(reading, 4) == "--no-default-features"@
            &&& selects(reading, 5, Seq::empty(), features@)
            &&& arg(reading, n) == "--test"@ && arg(reading, n + 1) == "mutex_ui"@
            &&& arg(reading, n + 2) == "--test"@ && arg(reading, n + 3) == "rwlock_ui"@
            &&& arg(reading, n + 4) == "--"@
            &&& arg(reading, n + 5) == "--ignored"@
        }),
        writing.program@ == reading.program@,
        writing.args@.len() == reading.args@.len(),
        shares_args(writing, reading, reading.args@.len() as int),
        writing.envs@.len() == 1,
        writing.envs@[0].0@ == "TRYBUILD"@,
        writing.envs@[0].1@ == "overwrite"@,
{
    lemma_fields(writing);
    lemma_fields(reading);
    lemma_unprefixed(texts(features@));
    let head = seq!["+"@ + version@, "test"@, "--package"@, "mea"@, "--no-default-features"@];
    let tail = seq!["--test"@, "mutex_ui"@, "--test"@, "rwlock_ui"@, "--"@, "--ignored"@];
    let n: int = 5 + 2 * features@.len() as int;
    lemma_selects(reading, head, Seq::empty(), features@, tail);
    assert(arg(reading, 0) == head[0] && arg(reading, 1) == head[1] && arg(reading, 2) == head[2]
        && arg(reading, 3) == head[3] && arg(reading, 4) == head[4]);
    assert(tail[0] == arg(reading, n) && tail[1] == arg(reading, n + 1) && tail[2] == arg(
        reading,
        n + 2,
    ) && tail[3] == arg(reading, n + 3) && tail[4] == arg(reading, n + 4) && tail[5] == arg(
        reading,
        n + 5,
    ));
    assert(writing.envs@[0].0@ == writing@.envs[0].0);
}

/// [`make_ui_test_cmd`] runs the UI tests of mea, which are ignored otherwise, on the toolchain of the
/// version, with each of the features and with no other. To overwrite diagnostics sets a variable, and
/// changes nothing else.
pub proof fn law_ui_test_command(
    features: &[String],
    version: &str,
    writing: CommandLine,
    reading: CommandLine,
)
    requires
        call_ensures(make_ui_test_cmd, (features, version, true), writing),
        call_ensures(make_ui_test_cmd, (features, version, false), reading),
    ensures
        starts(reading, "cargo"@),
        ({
            let n: int = 5 + 2 * features@.len() as int;
            &&& reading.args@.len() == n + 6
            &&& arg(reading, 0) == "+"@ + version@
            &&& arg(reading, 1) == "test"@
            &&& arg(reading, 2) == "--package"@
            &&& arg(reading, 3) == "mea"@
            &&& arg(reading, 4) == "--no-default-features"@
            &&& forall|i: int|
                #![trigger features@[i]]
                0 <= i < features@.len() ==> (arg(reading, 5 + 2 * i), arg(reading, 5 + 2 * i + 1))
                    == ("--features"@, features@[i]@)
            &&& arg(reading, n) == "--test"@ && arg(reading, n + 1) == "mutex_ui"@
            &&& arg(reading, n + 2) == "--test"@ && arg(reading, n + 3) == "rwlock_ui"@
            &&& arg(reading, n + 4) == "--"@
            &&& arg(reading, n + 5) == "--ignored"@
        }),
        writing.program@ == reading.program@,
        writing.args@.len() == reading.args@.len(),
        shares_args(writing, reading, reading.args@.len() as int),
        writing.envs@.len() == 1,
        writing.envs@[0].0@ == "TRYBUILD"@,
        writing.envs@[0].1@ == "overwrite"@,
{
    lemma_ui_test_command(features, version, writing, reading);
    lemma_pairs(reading, 5, features@);
}

/// What a selection without a prefix is.
pub(crate) proof fn lemma_pairs(cmd: CommandLine, h: int, names: Seq<String>)
    requires
        selects(cmd, h, Seq::empty(), names),
    ensures
        forall|i: int|
            #![trigger names[i]]
            0 <= i < names.len() ==> (arg(cmd, h + 2 * i), arg(cmd, h + 2 * i + 1)) == (
                "--features"@,
                names[i]@,
            ),
{
    assert forall|i: int| #![trigger names[i]] 0 <= i < names.len() implies (
        arg(cmd, h + 2 * i),
        arg(cmd, h + 2 * i + 1),
    ) == ("--features"@, names[i]@) by {
        assert(Seq::<char>::empty() + names[i]@ =~= names[i]@);
    }
}

/// Nothing goes before the names.
proof fn lemma_unprefixed(names: Seq<Seq<char>>)
    ensures
        prefixed(Seq::empty(), names) == names,
{
    assert forall|i: int| 0 <= i < names.len() implies Seq::<char>::empty() + names[i]
        == names[i] by {
        assert(Seq::<char>::empty() + names[i] =~= names[i]);
    }
    assert(prefixed(Seq::empty(), names) =~= names);
}

/// `cmd` checks all targets of mea on the nightly toolchain, with the features of `names` and no
/// others, where warnings are errors.
pub open spec fn checks(cmd: CommandLine, names: Seq<String>) -> bool {
    &&& cmd.program@ == "cargo"@
    &&& cmd.args@.len() == 6 + 2 * names.len()
    &&& arg(cmd, 0) == "+nightly"@
    &&& arg(cmd, 1) == "check"@
    &&& arg(cmd, 2) == "--package"@
    &&& arg(cmd, 3) == "mea"@
    &&& arg(cmd, 4) == "--all-targets"@
    &&& arg(cmd, 5) == "--no-default-features"@
    &&& selects(cmd, 6, Seq::empty(), names)
    &&& cmd.envs@.len() == 1
    &&& cmd.envs@[0].0@ == "RUSTFLAGS"@
    &&& cmd.envs@[0].1@ == "-Dwarnings"@
}

/// What a command that says so checks.
pub(crate) proof fn lemma_checks(cmd: CommandLine, names: Seq<String>)
    requires
        cmd@ == check_view(texts(names)),
    ensures
        checks(cmd, names),
{
    lemma_fields(cmd);
    lemma_unprefixed(texts(names));
    let head = seq![
        "+nightly"@,
        "check"@,
        "--package"@,
        "mea"@,
        "--all-targets"@,
        "--no-default-features"@,
    ];
    assert(cmd@.args =~= head + feature_args(prefixed(Seq::empty(), texts(names))) + Seq::empty());
    lemma_selects(cmd, head, Seq::empty(), names, Seq::empty());
    assert(arg(cmd, 0) == head[0] && arg(cmd, 1) == head[1] && arg(cmd, 2) == head[2] && arg(cmd, 3)
        == head[3] && arg(cmd, 4) == head[4] && arg(cmd, 5) == head[5]);
    assert(cmd.envs@[0].0@ == cmd@.envs[0].0);
}

/// [`make_check_cmd`] checks mea with exactly the given features.
pub proof fn law_check_command(features: &[String], cmd: CommandLine)
    requires
        call_ensures(make_check_cmd, (features,), cmd),
    ensures
        cmd.program@ == "cargo"@,
        cmd.args@.len() == 6 + 2 * features@.len(),
        arg(cmd, 0) == "+nightly"@,
        arg(cmd, 1) == "check"@,
        arg(cmd, 2) == "--package"@,
        arg(cmd, 3) == "mea"@,
        arg(cmd, 4) == "--all-targets"@,
        arg(cmd, 5) == "--no-default-features"@,
        forall|i: int|
            #![trigger features@[i]]
            0 <= i < features@.len() ==> (arg(cmd, 6 + 2 * i), arg(cmd, 6 + 2 * i + 1)) == (
                "--features"@,
                features@[i]@,
            ),
        cmd.envs@.len() == 1,
        cmd.envs@[0].0@ == "RUSTFLAGS"@,
        cmd.envs@[0].1@ == "-Dwarnings"@,
{
    lemma_checks(cmd, features@);
    lemma_pairs(cmd, 6, features@);
}

/// [`make_format_cmd`] formats everything with the nightly toolchain, or adds `--check` and changes
/// nothing.
pub proof fn law_format_command(fixing: CommandLine, checking: CommandLine)
    requires
        call_ensures(make_format_cmd, (true,), fixing),
        call_ensures(make_format_cmd, (false,), checking),
    ensures
        starts(fixing, "cargo"@),
        starts(checking, "cargo"@),
        fixing.args@.len() == 3,
        arg(fixing, 0) == "+nightly"@,
        arg(fixing, 1) == "fmt"@,
        arg(fixing, 2) == "--all"@,
        !has_arg(fixing, "--check"@),
        checking.args@.len() == 4,
        shares_args(checking, fixing, 3),
        arg(checking, 3) == "--check"@,
{
    lemma_fields(fixing);
    lemma_fields(checking);
    lemma_fix_words();
    assert(arg(fixing, 0) == "+nightly"@ && arg(fixing, 1) == "fmt"@ && arg(fixing, 2)
        == "--all"@);
    assert(arg(checking, 0) == "+nightly"@ && arg(checking, 1) == "fmt"@ && arg(checking, 2)
        == "--all"@);
}

/// Words that are not one another.
pub(crate) proof fn lemma_fix_words()
    ensures
        "--check"@ != "+nightly"@,
        "--check"@ != "fmt"@,
        "--check"@ != "--all"@,
        "--check"@ != "format"@,
        "--fix"@ != "+nightly"@,
        "--fix"@ != "clippy"@,
        "--fix"@ != "--tests"@,
        "--fix"@ != "--all-features"@,
        "--fix"@ != "--all-targets"@,
        "--fix"@ != "--workspace"@,
        "--fix"@ != "--"@,
        "--fix"@ != "-D"@,
        "--fix"@ != "warnings"@,
        "check"@ != "format"@,
{
    reveal_strlit("--check");
    reveal_strlit("+nightly");
    reveal_strlit("fmt");
    reveal_strlit("--all");
    reveal_strlit("format");
    reveal_strlit("--fix");
    reveal_strlit("clippy");
    reveal_strlit("--tests");
    reveal_strlit("--all-features");
    reveal_strlit("--all-targets");
    reveal_strlit("--workspace");
    reveal_strlit("--");
    reveal_strlit("-D");
    reveal_strlit("warnings");
    reveal_strlit("check");
    assert("--check"@.len() == 7 && "+nightly"@.len() == 8 && "fmt"@.len() == 3 && "--all"@.len()
        == 5 && "format"@.len() == 6);
    assert("--fix"@.len() == 5 && "clippy"@.len() == 6 && "--tests"@.len() == 7
        && "--all-features"@.len() == 14 && "--all-targets"@.len() == 13 && "--workspace"@.len()
        == 11 && "--"@.len() == 2 && "-D"@.len() == 2 && "warnings"@.len() == 8 && "check"@.len()
        == 5);
}

/// [`make_clippy_cmd`] lints everything with the nightly toolchain. It applies what can be applied, or
/// takes warnings for errors and changes nothing.
pub proof fn law_clippy_command(fixing: CommandLine, checking: CommandLine)
    requires
        call_ensures(make_clippy_cmd, (true,), fixing),
        call_ensures(make_clippy_cmd, (false,), checking),
    ensures
        starts(fixing, "cargo"@),
        starts(checking, "cargo"@),
        shares_args(checking, fixing, 6),
        arg(fixing, 0) == "+nightly"@,
        arg(fixing, 1) == "clippy"@,
        has_arg(fixing, "--tests"@),
        has_arg(fixing, "--all-features"@),
        has_arg(fixing, "--all-targets"@),
        has_arg(fixing, "--workspace"@),
        fixing.args@.len() == 9,
        has_arg(fixing, "--allow-staged"@),
        has_arg(fixing, "--allow-dirty"@),
        has_arg(fixing, "--fix"@),
        checking.args@.len() == 9,
        arg(checking, 6) == "--"@,
        arg(checking, 7) == "-D"@,
        arg(checking, 8) == "warnings"@,
        !has_arg(checking, "--fix"@),
{
    lemma_fields(fixing);
    lemma_fields(checking);
    lemma_fix_words();
    assert(arg(fixing, 0) == "+nightly"@ && arg(fixing, 1) == "clippy"@ && arg(fixing, 2)
        == "--tests"@ && arg(fixing, 3) == "--all-features"@ && arg(fixing, 4)
        == "--all-targets"@ && arg(fixing, 5) == "--workspace"@ && arg(fixing, 6)
        == "--allow-staged"@ && arg(fixing, 7) == "--allow-dirty"@ && arg(fixing, 8) == "--fix"@);
    assert(arg(checking, 0) == "+nightly"@ && arg(checking, 1) == "clippy"@ && arg(checking, 2)
        == "--tests"@ && arg(checking, 3) == "--all-features"@ && arg(checking, 4)
        == "--all-targets"@ && arg(checking, 5) == "--workspace"@);
}

/// [`make_install_cmd`] has cargo install the crate.
pub proof fn law_install_command(name: &str, cmd: CommandLine)
    requires
        call_ensures(make_install_cmd, (name,), cmd),
    ensures
        starts(cmd, "cargo"@),
        cmd.args@.len() == 2,
        arg(cmd, 0) == "install"@,
        arg(cmd, 1) == name@,
{
    lemma_fields(cmd);
}

} // verus!
