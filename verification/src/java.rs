//! Attaching the tracing agent to Java programs.
use vstd::prelude::*;
use vstd::string::*;
use vstd::utf8::*;

use crate::c_string::{nul_free, CStr};
use crate::clist::{lemma_some_match, CListMutPtr};
use crate::exec_vec::{addressable, lemma_before_first_empty, with_slot, ExecVec};
use crate::matcher::{ends_with, lemma_ends_with, lemma_starts_with, starts_with};
use crate::matcher::{EndsWith, Exact, StartsWith};

verus! {

/// The argument that attaches the agent.
pub open spec fn java_agent_param() -> Seq<u8> {
    encode_utf8("-javaagent:dd-java-agent.jar"@)
}

/// Whether the agent is to be attached: it is there, the program is Java, a jar is run, and no
/// agent is attached yet.
pub open spec fn java_rewrite_applies(args: Seq<Seq<u8>>, agent_present: bool) -> bool {
    &&& agent_present
    &&& args.len() > 0
    &&& ends_with(args[0], encode_utf8("java"@))
    &&& exists|i: int| 0 <= i < args.len() && #[trigger] args[i] == encode_utf8("-jar"@)
    &&& forall|i: int|
        0 <= i < args.len() ==> !starts_with(#[trigger] args[i], encode_utf8("-javaagent"@))
}

/// Whether the agent is to be attached to a command. `agent_present` says whether the agent's jar
/// exists.
pub fn check_java_rewrite(cmd: &CListMutPtr<'_>, agent_present: bool) -> (r: bool)
    requires
        cmd.well_formed(),
    ensures
        r == java_rewrite_applies(cmd.strings(), agent_present),
{
    if !agent_present {
        return false;
    }
    let java = EndsWith::from("java");
    let jar = Exact::from("-jar");
    let agent = StartsWith::from("-javaagent");
    proof {
        lemma_some_match(jar, cmd.strings());
        lemma_some_match(agent, cmd.strings());
    }
    cmd.get_first_entry(java).is_some() && cmd.get_entry(jar).is_some() && cmd.get_entry(
        agent,
    ).is_none()
}

/// The arguments once the agent is attached, where it is to be.
pub open spec fn rewritten_args(args: Seq<Seq<u8>>, agent_present: bool) -> Seq<Seq<u8>> {
    if java_rewrite_applies(args, agent_present) {
        args.insert(1, java_agent_param())
    } else {
        args
    }
}

/// Attaches the agent to a command, where it is to be: its argument comes right after the program.
pub fn rewrite_cmd_args<const N: usize>(cmd: &mut ExecVec<N>, agent_present: bool)
    requires
        old(cmd).well_formed(),
        java_rewrite_applies(old(cmd).strings(), agent_present) ==> addressable(
            old(cmd).strings().len() + 3,
        ),
    ensures
        final(cmd).well_formed(),
        final(cmd).strings() == rewritten_args(old(cmd).strings(), agent_present),
        final(cmd).slots() == (if java_rewrite_applies(old(cmd).strings(), agent_present) {
            with_slot(old(cmd).slots(), 1, Some(java_agent_param()))
        } else {
            old(cmd).slots()
        }),
{
    let applies = {
        let list = cmd.as_clist();
        check_java_rewrite(&list, agent_present)
    };
    proof {
        lemma_before_first_empty(old(cmd).slots());
        let n = (old(cmd).strings().len() + 1) as int;
        assert(old(cmd).slots().take(n) + old(cmd).slots().skip(n) =~= old(cmd).slots());
    }
    if applies {
        let param = CStr::from_bytes("-javaagent:dd-java-agent.jar".as_bytes());
        proof {
            reveal_strlit("-javaagent:dd-java-agent.jar");
            let text = "-javaagent:dd-java-agent.jar"@;
            assert(is_ascii_chars(text));
            is_ascii_chars_encode_utf8(text);
            assert(nul_free(encode_utf8(text)));
        }
        if let Some(param) = param {
            cmd.insert_cstr(1, param);
        }
    }
}

/// Attaching the agent changes nothing but that its argument may come in right after the program:
/// the others stay as they are and in order. Where it is not to be attached, nothing changes.
pub proof fn rewriting_keeps_the_arguments(args: Seq<Seq<u8>>, agent_present: bool)
    ensures
        ({
            let once = rewritten_args(args, agent_present);
            &&& !java_rewrite_applies(args, agent_present) ==> once == args
            &&& java_rewrite_applies(args, agent_present) ==> once.len() == args.len() + 1
                && once[0] == args[0] && once[1] == java_agent_param() && once.remove(1) == args
        }),
{
    if java_rewrite_applies(args, agent_present) {
        assert(rewritten_args(args, agent_present).remove(1) =~= args);
    }
}

/// Attaching the agent twice is the same as attaching it once: it is never attached to a command
/// that has it.
pub proof fn rewriting_is_idempotent(args: Seq<Seq<u8>>, agent_present: bool)
    ensures
        !java_rewrite_applies(rewritten_args(args, agent_present), agent_present),
        rewritten_args(rewritten_args(args, agent_present), agent_present) == rewritten_args(
            args,
            agent_present,
        ),
{
    if java_rewrite_applies(args, agent_present) {
        let once = rewritten_args(args, agent_present);
        reveal_strlit("-javaagent:dd-java-agent.jar");
        reveal_strlit("-javaagent");
        let text = "-javaagent:dd-java-agent.jar"@;
        let prefix = "-javaagent"@;
        assert(is_ascii_chars(text));
        assert(is_ascii_chars(prefix));
        is_ascii_chars_encode_utf8(text);
        is_ascii_chars_encode_utf8(prefix);
        assert(java_agent_param().take(prefix.len() as int) =~= encode_utf8(prefix));
        assert(once[1] == java_agent_param());
        assert(!java_rewrite_applies(once, agent_present));
    }
}

/// The agent is attached to a command exactly where its jar is there, the program ends with
/// `java`, some argument is `-jar`, and none begins with `-javaagent`, however many arguments there
/// are. Its argument then comes right after the program, and nothing else changes.
pub proof fn agent_is_attached_to_java(args: Seq<Seq<u8>>, agent_present: bool)
    ensures
        rewritten_args(args, agent_present) == (if agent_present && args.len() > 0 && (exists|
            start: Seq<u8>,
        |
            args[0] == #[trigger] (start + encode_utf8("java"@))) && (exists|i: int|
            0 <= i < args.len() && #[trigger] args[i] == encode_utf8("-jar"@))
            && (forall|i: int, rest: Seq<u8>|
            #![trigger args[i], encode_utf8("-javaagent"@) + rest]
            0 <= i < args.len() ==> args[i] != encode_utf8("-javaagent"@) + rest) {
            args.take(1) + seq![encode_utf8("-javaagent:dd-java-agent.jar"@)] + args.skip(1)
        } else {
            args
        }),
{
    let java = encode_utf8("java"@);
    let jar = encode_utf8("-jar"@);
    let prefix = encode_utf8("-javaagent"@);
    if args.len() > 0 {
        lemma_ends_with(args[0], java);
    }
    assert forall|i: int| 0 <= i < args.len() implies (starts_with(#[trigger] args[i], prefix)
        <==> exists|rest: Seq<u8>| args[i] == #[trigger] (prefix + rest)) by {
        lemma_starts_with(args[i], prefix);
    }
    if java_rewrite_applies(args, agent_present) {
        assert(args.insert(1, java_agent_param()) =~= args.take(1) + seq![java_agent_param()]
            + args.skip(1));
        assert forall|i: int, rest: Seq<u8>|
            #![trigger args[i], prefix + rest]
            0 <= i < args.len() implies args[i] != prefix + rest by {
            assert(!starts_with(args[i], prefix));
        }
    } else if agent_present && args.len() > 0 && ends_with(args[0], java) && exists|i: int|
        0 <= i < args.len() && #[trigger] args[i] == jar {
        let i = choose|i: int| 0 <= i < args.len() && starts_with(#[trigger] args[i], prefix);
        let rest = choose|rest: Seq<u8>| args[i] == #[trigger] (prefix + rest);
        assert(args[i] == prefix + rest);
    }
}

} // verus!
