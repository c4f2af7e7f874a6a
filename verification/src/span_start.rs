//! How the span of a process begins.
use vstd::prelude::*;
use vstd::string::*;

use crate::assoc::{distinct_keys, has_key, lemma_first_place, mapped, value_of, AssocMap};
use crate::c_string::{lossy_text, CString};
use crate::clist::CListMutPtr;
use crate::handle_table::HandleView;
use crate::text::{contains_char, file_name, file_name_follows_the_last_slash, file_name_of};
use crate::trace_context::{clone_opt, opt_id_view, TraceContext, TraceContextView};
use crate::trace_events::{value_view, MetaKey, MetaKeyView, MetaValue, MetaValueView};
use crate::trace_events::{SpanStart, SpanStartView};
use crate::typed::channel::UnixStream;
use crate::typed::handle::PlatformHandle;

verus! {

/// The arguments of a command as texts.
pub open spec fn texts(cmd: Seq<Seq<u8>>) -> Seq<Seq<char>> {
    Seq::new(cmd.len(), |i: int| lossy_text(cmd[i]))
}

/// The name of a command: the file name of its program.
pub open spec fn command_name(cmd: Seq<Seq<char>>) -> Seq<char> {
    if cmd.len() == 0 {
        "unknown"@
    } else {
        match file_name_of(cmd[0]) {
            Some(name) => name,
            None => "unknown"@,
        }
    }
}

/// A command in one line: the file name of its program, or the program as it stands where it has
/// none, and the arguments.
pub open spec fn command_line(cmd: Seq<Seq<char>>) -> Seq<char> {
    if cmd.len() == 0 {
        Seq::empty()
    } else {
        let program = match file_name_of(cmd[0]) {
            Some(name) => name,
            None => cmd[0],
        };
        program + arguments(cmd.skip(1))
    }
}

/// Arguments in one line, each after a space. Those that hold a space stand in quotation marks.
pub open spec fn arguments(args: Seq<Seq<char>>) -> Seq<char>
    decreases args.len(),
{
    if args.len() == 0 {
        Seq::empty()
    } else {
        arguments(args.drop_last()) + argument(args.last())
    }
}

/// An argument after a space. One that holds a space stands in quotation marks.
pub open spec fn argument(arg: Seq<char>) -> Seq<char> {
    if arg.contains(' ') {
        seq![' ', '"'] + arg + seq!['"']
    } else {
        seq![' '] + arg
    }
}

/// The information on a process: its program, its number, and its directory, as far as they are
/// known.
pub open spec fn process_meta(cmd: Seq<Seq<char>>, pid: i32, cwd: Option<Seq<char>>) -> Seq<
    (MetaKeyView, MetaValueView),
> {
    let program = if cmd.len() == 0 {
        Seq::empty()
    } else {
        seq![(MetaKeyView::ExecutablePath, MetaValueView::String(cmd[0]))]
    };
    let process = program.push((MetaKeyView::CmdOriginPid, MetaValueView::Pid(pid)));
    match cwd {
        Some(cwd) => process.push(
            (MetaKeyView::CmdCurrentWorkingDirectory, MetaValueView::String(cwd)),
        ),
        None => process,
    }
}

/// An optional text.
pub open spec fn opt_text(text: Option<String>) -> Option<Seq<char>> {
    match text {
        Some(text) => Some(text@),
        None => None,
    }
}

/// An optional handle.
pub open spec fn opt_handle<T>(handle: Option<PlatformHandle<T>>) -> Option<HandleView> {
    match handle {
        Some(handle) => Some(handle@),
        None => None,
    }
}

impl TraceContextView {
    /// The beginning of the span of a process that runs a command.
    pub open spec fn span_start(
        self,
        cmd: Seq<Seq<char>>,
        time: u64,
        pid: i32,
        cwd: Option<Seq<char>>,
        span_end_socket: Option<HandleView>,
    ) -> SpanStartView {
        SpanStartView {
            id: self.span_id,
            name: command_name(cmd),
            trace_id: self.trace_id,
            parent_id: self.parent_span_id,
            resource: command_line(cmd),
            service: "executable"@,
            time,
            span_end_socket,
            meta: process_meta(cmd, pid, cwd),
        }
    }
}

impl TraceContext {
    /// The beginning of the span of the process `pid`, which runs the command `cmd` in the
    /// directory `cwd` since `time`. The other end of `span_end_socket` is open for as long as the
    /// process lives.
    pub fn span_start(
        &self,
        cmd: &CListMutPtr<'_>,
        time: u64,
        pid: i32,
        cwd: Option<String>,
        span_end_socket: Option<PlatformHandle<UnixStream>>,
    ) -> (r: SpanStart)
        requires
            cmd.well_formed(),
        ensures
            r@ == self@.span_start(
                texts(cmd.strings()),
                time,
                pid,
                opt_text(cwd),
                opt_handle(span_end_socket),
            ),
            r.meta.well_formed(),
            r.id@ == self.span_id@,
            r.trace_id@ == self.trace_id@,
            opt_id_view(r.parent_id) == opt_id_view(self.parent_span_id),
            r.service@ == "executable"@,
            r.name@ == command_name(texts(cmd.strings())),
            r.resource@ == command_line(texts(cmd.strings())),
            r.time == time,
            r.span_end_socket == span_end_socket,
            value_of(r.meta@, MetaKeyView::CmdOriginPid) == Some(MetaValue::Pid(pid)),
    {
        let cmd: Vec<CString> = cmd.to_owned_vec();
        let ghost all = texts(cmd@.map_values(|s: CString| s@));
        let mut meta: AssocMap<MetaKey, MetaValue> = AssocMap::new();
        let mut resource = String::new();
        let mut name: Option<String> = None;
        if cmd.len() > 0 {
            let s = cmd[0].to_string_lossy();
            assert(all[0] == s@);
            name = file_name(s.as_str());
            match &name {
                Some(name) => {
                    resource.append(name.as_str());
                },
                None => {
                    resource.append(s.as_str());
                },
            }
            let value = MetaValue::from(s);
            meta.insert(MetaKey::ExecutablePath, value);
            assert(meta@ =~= seq![(MetaKeyView::ExecutablePath, value)]);
        }
        let ghost program = meta@;
        let name = match name {
            Some(name) => name,
            None => String::from_str("unknown"),
        };
        let ghost head = resource@;
        let mut i: usize = 1;
        while i < cmd.len()
            invariant
                1 <= i,
                cmd@.len() > 0 ==> i <= cmd@.len(),
                all == texts(cmd@.map_values(|s: CString| s@)),
                cmd@.len() > 0 ==> resource@ == head + arguments(
                    all.skip(1).take((i - 1) as int),
                ),
                cmd@.len() == 0 ==> resource@ == head,
            decreases cmd.len() - i,
        {
            let s = cmd[i].to_string_lossy();
            proof {
                assert(all[i as int] == s@);
                assert(all.skip(1).take(i as int).drop_last() =~= all.skip(1).take(i - 1));
                assert(all.skip(1).take(i as int).last() == s@);
            }
            let ghost before = resource@;
            resource.push(' ');
            if contains_char(s.as_str(), ' ') {
                resource.push('"');
                resource.append(s.as_str());
                resource.push('"');
            } else {
                resource.append(s.as_str());
            }
            assert(resource@ =~= before + argument(s@));
            assert(resource@ =~= head + arguments(all.skip(1).take(i as int)));
            i += 1;
        }
        proof {
            if cmd@.len() > 0 {
                assert(all.skip(1).take(all.len() - 1) =~= all.skip(1));
                assert(resource@ =~= command_line(all));
            } else {
                assert(resource@ =~= command_line(all));
            }
        }
        proof {
            lemma_first_place(program, MetaKeyView::CmdOriginPid, program.len() as int);
        }
        meta.insert(MetaKey::CmdOriginPid, MetaValue::Pid(pid));
        let ghost process = meta@;
        let ghost directory = opt_text(cwd);
        proof {
            lemma_first_place(
                process,
                MetaKeyView::CmdCurrentWorkingDirectory,
                process.len() as int,
            );
        }
        if let Some(s) = cwd {
            meta.insert(MetaKey::CmdCurrentWorkingDirectory, MetaValue::String(s));
        }
        proof {
            assert(mapped(meta@, value_view()) =~= process_meta(all, pid, directory));
            lemma_first_place(meta@, MetaKeyView::CmdOriginPid, program.len() as int);
        }
        SpanStart {
            id: self.span_id.clone(),
            trace_id: self.trace_id.clone(),
            parent_id: clone_opt(&self.parent_span_id),
            name,
            resource,
            service: String::from_str("executable"),
            time,
            span_end_socket,
            meta,
        }
    }
}

/// What is told of a process is its number, its program exactly where it has one, its directory
/// exactly where it is known, and nothing else.
pub proof fn process_is_described(
    cmd: Seq<Seq<char>>,
    pid: i32,
    cwd: Option<Seq<char>>,
    other: Seq<char>,
)
    ensures
        ({
            let meta = process_meta(cmd, pid, cwd);
            &&& distinct_keys(meta)
            &&& value_of(meta, MetaKeyView::CmdOriginPid) == Some(MetaValueView::Pid(pid))
            &&& value_of(meta, MetaKeyView::ExecutablePath) == (if cmd.len() > 0 {
                Some(MetaValueView::String(cmd[0]))
            } else {
                None
            })
            &&& value_of(meta, MetaKeyView::CmdCurrentWorkingDirectory) == (match cwd {
                Some(cwd) => Some(MetaValueView::String(cwd)),
                None => None,
            })
            &&& !has_key(meta, MetaKeyView::String(other))
        }),
{
    let meta = process_meta(cmd, pid, cwd);
    let n = meta.len() as int;
    let number: int = if cmd.len() > 0 { 1 } else { 0 };
    lemma_first_place(meta, MetaKeyView::CmdOriginPid, number);
    lemma_first_place(meta, MetaKeyView::ExecutablePath, if cmd.len() > 0 { 0 } else { n });
    lemma_first_place(meta, MetaKeyView::CmdCurrentWorkingDirectory, number + 1);
    lemma_first_place(meta, MetaKeyView::String(other), n);
}

/// Every argument is part of the line that tells of a command, in order: with one more argument,
/// the line goes on with a space and the argument, in quotation marks where it holds a space.
pub proof fn every_argument_is_told(cmd: Seq<Seq<char>>, arg: Seq<char>)
    requires
        cmd.len() > 0,
    ensures
        command_line(cmd.push(arg)) == command_line(cmd) + (if arg.contains(' ') {
            seq![' ', '"'] + arg + seq!['"']
        } else {
            seq![' '] + arg
        }),
{
    let more = cmd.push(arg);
    assert(more.skip(1).drop_last() =~= cmd.skip(1));
    assert(more.skip(1).last() == arg);
    assert(more[0] == cmd[0]);
    assert(command_line(more) =~= command_line(cmd) + argument(arg));
}

/// The line that tells of a command begins with the file name of its program, in whatever directory
/// it is, and so does the name of the span.
pub proof fn program_is_told_by_its_file_name(
    directory: Seq<char>,
    name: Seq<char>,
    args: Seq<Seq<char>>,
)
    requires
        name.len() > 0,
        !name.contains('/'),
        name != seq!['.'],
        name != seq!['.', '.'],
    ensures
        command_line(seq![directory + seq!['/'] + name]) == name,
        command_line(seq![name]) == name,
        command_name(seq![directory + seq!['/'] + name] + args) == name,
        command_name(seq![name] + args) == name,
{
    file_name_follows_the_last_slash(directory, name);
    let path = directory + seq!['/'] + name;
    assert(seq![path].skip(1) =~= Seq::<Seq<char>>::empty());
    assert(seq![name].skip(1) =~= Seq::<Seq<char>>::empty());
    assert(name + Seq::<char>::empty() =~= name);
    assert((seq![path] + args)[0] == path);
    assert((seq![name] + args)[0] == name);
}

/// A program without a file name is told as it stands, and its span is of unknown name. Of no
/// command nothing is told.
pub proof fn program_without_a_name_is_unknown(cmd: Seq<Seq<char>>)
    requires
        cmd.len() > 0 ==> file_name_of(cmd[0]) is None,
    ensures
        command_name(cmd) == "unknown"@,
        cmd.len() == 1 ==> command_line(cmd) == cmd[0],
        cmd.len() == 0 ==> command_line(cmd) == Seq::<char>::empty(),
{
    if cmd.len() == 1 {
        assert(cmd.skip(1) =~= Seq::<Seq<char>>::empty());
        assert(cmd[0] + Seq::<char>::empty() =~= cmd[0]);
    }
}

/// The span of a process is that of its context, and is of the service `executable`.
pub proof fn span_is_that_of_its_context(
    context: TraceContextView,
    cmd: Seq<Seq<u8>>,
    time: u64,
    pid: i32,
    cwd: Option<Seq<char>>,
    socket: Option<HandleView>,
)
    ensures
        ({
            let start = context.span_start(texts(cmd), time, pid, cwd, socket);
            &&& start.id == context.span_id
            &&& start.trace_id == context.trace_id
            &&& start.parent_id == context.parent_span_id
            &&& start.service == "executable"@
            &&& start.time == time
            &&& start.span_end_socket == socket
            &&& start.name == command_name(texts(cmd))
            &&& start.resource == command_line(texts(cmd))
            &&& start.meta == process_meta(texts(cmd), pid, cwd)
        }),
        texts(cmd).len() == cmd.len(),
        forall|i: int| 0 <= i < cmd.len() ==> #[trigger] texts(cmd)[i] == lossy_text(cmd[i]),
{
}

} // verus!
