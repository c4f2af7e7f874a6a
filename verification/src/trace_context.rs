//! The place of a process in a trace.
use vstd::prelude::*;
use vstd::string::*;
use vstd::utf8::*;

use crate::c_string::{lemma_find_byte, nul_free};
use crate::clist::{last_match, CListMutPtr};
use crate::exec_vec::{addressable, listing, ExecVec};
use crate::id::{canonical, id_of_bytes, id_reads_back, Id, IdView};
use crate::matcher::{assigned_value, assignment, assigns, starts_with, value_is_read_back};
use crate::matcher::{EnvError, EnvKey};
use crate::text::{decimal_denotes_its_number, is_digit};

verus! {

/// The span of a process, the trace that it is part of, and the span that started it.
#[derive(Debug)]
pub struct TraceContext {
    pub trace_id: Id,
    pub span_id: Id,
    pub parent_span_id: Option<Id>,
}

/// What a context says, whatever memory it occupies.
pub struct TraceContextView {
    pub trace_id: IdView,
    pub span_id: IdView,
    pub parent_span_id: Option<IdView>,
}

/// What an optional identifier is.
pub open spec fn opt_id_view(id: Option<Id>) -> Option<IdView> {
    match id {
        Some(id) => Some(id@),
        None => None,
    }
}

impl View for TraceContext {
    type V = TraceContextView;

    open spec fn view(&self) -> TraceContextView {
        TraceContextView {
            trace_id: self.trace_id@,
            span_id: self.span_id@,
            parent_span_id: opt_id_view(self.parent_span_id),
        }
    }
}

impl Default for TraceContext {
    /// A new trace, of a single span, with random identifiers.
    fn default() -> (r: Self)
        ensures
            r.trace_id is Numeric,
            r.span_id is Numeric,
            r.parent_span_id is None,
    {
        TraceContext { trace_id: Id::default(), span_id: Id::default(), parent_span_id: None }
    }
}

impl Clone for TraceContext {
    fn clone(&self) -> (r: Self)
        ensures
            r == *self,
    {
        TraceContext {
            trace_id: self.trace_id.clone(),
            span_id: self.span_id.clone(),
            parent_span_id: clone_opt(&self.parent_span_id),
        }
    }
}

/// The same identifier, if there is one.
pub fn clone_opt(id: &Option<Id>) -> (r: Option<Id>)
    ensures
        r == *id,
{
    match id {
        Some(id) => Some(id.clone()),
        None => None,
    }
}

impl TraceContext {
    /// The context of a child process, whose span gets a random identifier.
    pub fn to_child(&self) -> (r: Self)
        ensures
            r.span_id is Numeric,
            r@ == self@.child(r.span_id@),
            r.trace_id@ == self.trace_id@,
            opt_id_view(r.parent_span_id) == Some(self.span_id@),
    {
        self.child_with(Id::default())
    }

    /// Adds the context to an environment. A parent whose entry cannot be built is left out. Where
    /// the entry of the trace or the span cannot be built, nothing is added.
    pub fn store_in_c_env<const N: usize>(&self, env: &mut ExecVec<N>) -> (r: Result<(), EnvError>)
        requires
            old(env).well_formed(),
            addressable(old(env).strings().len() + 4),
        ensures
            final(env).well_formed(),
            match r {
                Ok(()) => {
                    &&& self@.storable()
                    &&& final(env).strings() == self@.stored(old(env).strings())
                    &&& final(env).slots() == listing(final(env).strings())
                },
                Err(EnvError::InteriorNul(e)) => {
                    let entry = if nul_free(self@.trace_entry()) {
                        self@.span_entry()
                    } else {
                        self@.trace_entry()
                    };
                    &&& e.position < entry.len()
                    &&& entry[e.position as int] == 0
                    &&& nul_free(entry.take(e.position as int))
                    &&& final(env).slots() == old(env).slots()
                },
                Err(EnvError::InvalidUtf8) => false,
            },
    {
        proof {
            encode_utf8_valid_utf8("DD_EXEC_T_TRACE_ID"@);
            encode_utf8_valid_utf8("DD_EXEC_T_SPAN_ID"@);
            encode_utf8_valid_utf8("DD_EXEC_T_PARENT_SPAN_ID"@);
        }
        let trace_text = self.trace_id.to_string();
        let trace_id = match EnvKey::from("DD_EXEC_T_TRACE_ID").build_c_env(trace_text.as_str()) {
            Ok(entry) => entry,
            Err(e) => {
                return Err(e);
            },
        };
        let span_text = self.span_id.to_string();
        let span_id = match EnvKey::from("DD_EXEC_T_SPAN_ID").build_c_env(span_text.as_str()) {
            Ok(entry) => entry,
            Err(e) => {
                return Err(e);
            },
        };
        let parent_span_id = match &self.parent_span_id {
            Some(parent) => {
                let text = parent.to_string();
                match EnvKey::from("DD_EXEC_T_PARENT_SPAN_ID").build_c_env(text.as_str()) {
                    Ok(entry) => Some(entry),
                    Err(_) => None,
                }
            },
            None => None,
        };
        env.push_cstring(trace_id);
        env.push_cstring(span_id);
        let ghost two = env.strings();
        if let Some(parent_span_id) = parent_span_id {
            env.push_cstring(parent_span_id);
            assert(env.strings() =~= self@.stored(old(env).strings()));
        } else {
            assert(env.strings() =~= self@.stored(old(env).strings()));
        }
        Ok(())
    }

    /// Takes a context out of an environment.
    pub fn extract_from_c_env(env: &mut CListMutPtr<'_>) -> (r: Option<Self>)
        requires
            old(env).well_formed(),
        ensures
            final(env).well_formed(),
            final(final(env).inner)@ == final(old(env).inner)@,
            final(env).inner@.len() == old(env).inner@.len(),
            final(env).strings() == extracted(old(env).strings()).1,
            match r {
                Some(context) => extracted(old(env).strings()).0 == Some(context@),
                None => extracted(old(env).strings()).0 is None,
            },
    {
        let trace_id = match remove_id(env, EnvKey::from("DD_EXEC_T_TRACE_ID")) {
            Some(id) => id,
            None => {
                return None;
            },
        };
        let span_id = match remove_id(env, EnvKey::from("DD_EXEC_T_SPAN_ID")) {
            Some(id) => id,
            None => {
                return None;
            },
        };
        let parent_span_id = remove_id(env, EnvKey::from("DD_EXEC_T_PARENT_SPAN_ID"));
        Some(TraceContext { trace_id, span_id, parent_span_id })
    }

    /// The context of a child process with the given span.
    pub fn child_with(&self, span_id: Id) -> (r: Self)
        ensures
            r@ == self@.child(span_id@),
            r.trace_id@ == self.trace_id@,
            r.span_id@ == span_id@,
            opt_id_view(r.parent_span_id) == Some(self.span_id@),
    {
        TraceContext {
            trace_id: self.trace_id.clone(),
            span_id,
            parent_span_id: Some(self.span_id.clone()),
        }
    }
}

// ---------------------------------------------------------------------------
// The context in the environment of a process
// ---------------------------------------------------------------------------

/// The variable that names the trace.
pub open spec fn env_trace_id() -> Seq<u8> {
    encode_utf8("DD_EXEC_T_TRACE_ID"@)
}

/// The variable that names the span that started the process.
pub open spec fn env_parent_span_id() -> Seq<u8> {
    encode_utf8("DD_EXEC_T_PARENT_SPAN_ID"@)
}

/// The variable that names the span of the process.
pub open spec fn env_span_id() -> Seq<u8> {
    encode_utf8("DD_EXEC_T_SPAN_ID"@)
}

/// The index of the last entry that assigns to `key`.
pub open spec fn last_assignment(entries: Seq<Seq<u8>>, key: Seq<u8>) -> Option<int>
    decreases entries.len(),
{
    if entries.len() == 0 {
        None
    } else if assigns(entries.last(), key) {
        Some(entries.len() - 1)
    } else {
        last_assignment(entries.drop_last(), key)
    }
}

/// The environment without its last assignment to `key`.
pub open spec fn without(entries: Seq<Seq<u8>>, key: Seq<u8>) -> Seq<Seq<u8>> {
    match last_assignment(entries, key) {
        Some(i) => entries.remove(i),
        None => entries,
    }
}

/// The identifier that the last assignment to `key` gives.
pub open spec fn assigned_id(entries: Seq<Seq<u8>>, key: Seq<u8>) -> Option<IdView> {
    match last_assignment(entries, key) {
        Some(i) => Some(id_of_bytes(assigned_value(entries[i]))),
        None => None,
    }
}

/// The context that an environment holds, and what is left of the environment. Without a trace
/// nothing is taken out. Without a span there is no context, and the trace is taken out.
pub open spec fn extracted(entries: Seq<Seq<u8>>) -> (Option<TraceContextView>, Seq<Seq<u8>>) {
    match assigned_id(entries, env_trace_id()) {
        None => (None, entries),
        Some(trace_id) => {
            let rest = without(entries, env_trace_id());
            match assigned_id(rest, env_span_id()) {
                None => (None, rest),
                Some(span_id) => {
                    let rest = without(rest, env_span_id());
                    (
                        Some(
                            TraceContextView {
                                trace_id,
                                span_id,
                                parent_span_id: assigned_id(rest, env_parent_span_id()),
                            },
                        ),
                        without(rest, env_parent_span_id()),
                    )
                },
            }
        },
    }
}

impl TraceContextView {
    /// The entry that assigns the trace.
    pub open spec fn trace_entry(self) -> Seq<u8> {
        assignment(env_trace_id(), self.trace_id.text())
    }

    /// The entry that assigns the span.
    pub open spec fn span_entry(self) -> Seq<u8> {
        assignment(env_span_id(), self.span_id.text())
    }

    /// The entry that assigns the parent, where there is a parent and the entry can be built.
    pub open spec fn parent_entries(self) -> Seq<Seq<u8>> {
        match self.parent_span_id {
            Some(parent) => {
                let entry = assignment(env_parent_span_id(), parent.text());
                if nul_free(entry) {
                    seq![entry]
                } else {
                    Seq::empty()
                }
            },
            None => Seq::empty(),
        }
    }

    /// The environment with this context added to it.
    pub open spec fn stored(self, entries: Seq<Seq<u8>>) -> Seq<Seq<u8>> {
        entries.push(self.trace_entry()).push(self.span_entry()) + self.parent_entries()
    }

    /// Whether the context can be stored.
    pub open spec fn storable(self) -> bool {
        nul_free(self.trace_entry()) && nul_free(self.span_entry())
    }
    /// The context of a child with the given span: it is part of the same trace, and its parent is
    /// the span of this context.
    pub open spec fn child(self, span_id: IdView) -> TraceContextView {
        TraceContextView {
            trace_id: self.trace_id,
            span_id,
            parent_span_id: Some(self.span_id),
        }
    }
}

/// Removes the last assignment to a variable, and reads its value as an identifier.
fn remove_id(env: &mut CListMutPtr<'_>, key: EnvKey<'_>) -> (r: Option<Id>)
    requires
        old(env).well_formed(),
    ensures
        final(env).well_formed(),
        final(final(env).inner)@ == final(old(env).inner)@,
        final(env).inner@.len() == old(env).inner@.len(),
        final(env).strings() == without(old(env).strings(), key@),
        opt_id_view(r) == assigned_id(old(env).strings(), key@),
{
    proof {
        lemma_last_assignment(key, env.strings());
    }
    match env.remove_entry(key) {
        Some(entry) => Some(Id::from_c_str(EnvKey::get_value(entry.as_c_str()))),
        None => None,
    }
}

proof fn lemma_last_assignment(key: EnvKey<'_>, entries: Seq<Seq<u8>>)
    ensures
        last_match(key, entries) == last_assignment(entries, key@),
    decreases entries.len(),
{
    if entries.len() > 0 {
        lemma_last_assignment(key, entries.drop_last());
    }
}

/// The three variables are ASCII, hold no equals sign, and differ in their eleventh character.
proof fn lemma_keys()
    ensures
        env_trace_id().len() > 10 && env_trace_id()[10] == 0x54,
        env_span_id().len() > 10 && env_span_id()[10] == 0x53,
        env_parent_span_id().len() > 10 && env_parent_span_id()[10] == 0x50,
        forall|i: int| 0 <= i < env_trace_id().len() ==> env_trace_id()[i] != 0x3d,
        forall|i: int| 0 <= i < env_span_id().len() ==> env_span_id()[i] != 0x3d,
        forall|i: int| 0 <= i < env_parent_span_id().len() ==> env_parent_span_id()[i] != 0x3d,
        nul_free(env_trace_id()),
        nul_free(env_span_id()),
        nul_free(env_parent_span_id()),
{
    reveal_strlit("DD_EXEC_T_TRACE_ID");
    reveal_strlit("DD_EXEC_T_SPAN_ID");
    reveal_strlit("DD_EXEC_T_PARENT_SPAN_ID");
    let trace = "DD_EXEC_T_TRACE_ID"@;
    let span = "DD_EXEC_T_SPAN_ID"@;
    let parent = "DD_EXEC_T_PARENT_SPAN_ID"@;
    assert(is_ascii_chars(trace));
    assert(is_ascii_chars(span));
    assert(is_ascii_chars(parent));
    is_ascii_chars_encode_utf8(trace);
    is_ascii_chars_encode_utf8(span);
    is_ascii_chars_encode_utf8(parent);
}

/// An assignment to a key assigns to that key and to no key that differs in its eleventh
/// character, and its value is what was assigned.
proof fn lemma_assignment(key: Seq<u8>, value: Seq<char>)
    requires
        key.len() > 10,
        forall|i: int| 0 <= i < key.len() ==> key[i] != 0x3d,
    ensures
        assigns(assignment(key, value), key),
        assigned_value(assignment(key, value)) == encode_utf8(value),
        forall|other: Seq<u8>|
            other.len() > 10 && other[10] != key[10] ==> !assigns(assignment(key, value), other),
{
    let entry = assignment(key, value);
    let n = key.len() as int;
    assert(entry.take(n + 1) =~= key.push(0x3d));
    assert(entry[n] == 0x3d);
    lemma_find_byte(entry, 0x3d, n);
    assert(entry.skip(n + 1) =~= encode_utf8(value));
    assert forall|other: Seq<u8>| other.len() > 10 && other[10] != key[10] implies !assigns(
        entry,
        other,
    ) by {
        let expected = other.push(0x3d);
        if starts_with(entry, expected) {
            assert(entry.take(expected.len() as int)[10] == entry[10]);
            assert(expected[10] == other[10]);
            assert(entry[10] == key[10]);
        }
    }
}

/// An entry at the end that does not assign to a key has no part in the last assignment to it.
proof fn lemma_skip_last(entries: Seq<Seq<u8>>, last: Seq<u8>, key: Seq<u8>)
    requires
        !assigns(last, key),
    ensures
        last_assignment(entries.push(last), key) == last_assignment(entries, key),
{
    assert(entries.push(last).drop_last() =~= entries);
}

/// An entry at the end that assigns to a key is the last assignment to it.
proof fn lemma_take_last(entries: Seq<Seq<u8>>, last: Seq<u8>, key: Seq<u8>)
    requires
        assigns(last, key),
    ensures
        last_assignment(entries.push(last), key) == Some(entries.len() as int),
        without(entries.push(last), key) == entries,
        assigned_id(entries.push(last), key) == Some(id_of_bytes(assigned_value(last))),
{
    assert(entries.push(last).remove(entries.len() as int) =~= entries);
}

/// A numeric identifier never holds a NUL byte.
pub proof fn numeric_ids_are_nul_free(n: u64)
    ensures
        nul_free(encode_utf8(IdView::Numeric(n).text())),
{
    let text = IdView::Numeric(n).text();
    decimal_denotes_its_number(n as nat);
    assert forall|i: int| 0 <= i < text.len() implies '\0' <= #[trigger] text[i] <= '\u{7f}' by {
        assert(is_digit(text[i]));
    }
    is_ascii_chars_encode_utf8(text);
    assert forall|i: int| 0 <= i < encode_utf8(text).len() implies #[trigger] encode_utf8(
        text,
    )[i] != 0 by {
        assert(is_digit(text[i]));
        assert(text[i] as u8 == encode_utf8(text)[i]);
    }
}

/// A context whose identifiers are numeric can always be stored.
pub proof fn numeric_contexts_are_storable(context: TraceContextView)
    requires
        context.trace_id is Numeric,
        context.span_id is Numeric,
    ensures
        context.storable(),
{
    lemma_keys();
    numeric_ids_are_nul_free(context.trace_id->Numeric_0);
    numeric_ids_are_nul_free(context.span_id->Numeric_0);
}

/// A context that was stored in an environment is extracted from it again, and leaves the
/// environment as it was. Where the context has no parent, the environment must not name one
/// already; earlier traces and spans in it do no harm.
pub proof fn stored_context_is_extracted(context: TraceContextView, entries: Seq<Seq<u8>>)
    requires
        context.storable(),
        canonical(context.trace_id),
        canonical(context.span_id),
        match context.parent_span_id {
            Some(parent) => canonical(parent) && context.parent_entries().len() == 1,
            None => last_assignment(entries, env_parent_span_id()) is None,
        },
    ensures
        extracted(context.stored(entries)) == (Some(context), entries),
{
    lemma_keys();
    let t = context.trace_entry();
    let s = context.span_entry();
    let with_t = entries.push(t);
    let with_ts = with_t.push(s);
    lemma_assignment(env_trace_id(), context.trace_id.text());
    lemma_assignment(env_span_id(), context.span_id.text());
    id_reads_back(context.trace_id);
    id_reads_back(context.span_id);
    lemma_take_last(entries, s, env_span_id());
    match context.parent_span_id {
        Some(parent) => {
            let p = assignment(env_parent_span_id(), parent.text());
            lemma_assignment(env_parent_span_id(), parent.text());
            id_reads_back(parent);
            let all = with_ts.push(p);
            assert(context.stored(entries) =~= all);
            lemma_skip_last(with_ts, p, env_trace_id());
            lemma_skip_last(with_t, s, env_trace_id());
            lemma_take_last(entries, t, env_trace_id());
            let rest = entries.push(s).push(p);
            assert(all.remove(entries.len() as int) =~= rest);
            lemma_skip_last(entries.push(s), p, env_span_id());
            assert(rest.remove(entries.len() as int) =~= entries.push(p));
            lemma_take_last(entries, p, env_parent_span_id());
        },
        None => {
            assert(context.stored(entries) =~= with_ts);
            lemma_skip_last(with_t, s, env_trace_id());
            lemma_take_last(entries, t, env_trace_id());
            assert(with_ts.remove(entries.len() as int) =~= entries.push(s));
        },
    }
}

/// A context whose identifiers are numeric can be stored in every environment, and is extracted
/// from it again, which leaves the environment as it was. Where the context has no parent, the
/// environment must not name one already.
pub proof fn numeric_context_is_extracted(context: TraceContextView, entries: Seq<Seq<u8>>)
    requires
        context.trace_id is Numeric,
        context.span_id is Numeric,
        match context.parent_span_id {
            Some(parent) => parent is Numeric,
            None => last_assignment(entries, env_parent_span_id()) is None,
        },
    ensures
        context.storable(),
        extracted(context.stored(entries)) == (Some(context), entries),
{
    numeric_contexts_are_storable(context);
    if let Some(parent) = context.parent_span_id {
        lemma_keys();
        numeric_ids_are_nul_free(parent->Numeric_0);
    }
    stored_context_is_extracted(context, entries);
}

/// A context is stored as assignments that come after what the environment holds: the trace, the
/// span, and the parent where there is one that can be assigned.
pub proof fn context_is_stored_as_assignments(context: TraceContextView, entries: Seq<Seq<u8>>)
    ensures
        context.stored(entries).len() >= entries.len() + 2,
        context.stored(entries).take(entries.len() as int) == entries,
        context.stored(entries)[entries.len() as int] == encode_utf8("DD_EXEC_T_TRACE_ID"@)
            + seq![0x3du8] + encode_utf8(context.trace_id.text()),
        context.stored(entries)[(entries.len() + 1) as int] == encode_utf8("DD_EXEC_T_SPAN_ID"@)
            + seq![0x3du8] + encode_utf8(context.span_id.text()),
        match context.parent_span_id {
            Some(parent) => {
                let entry = encode_utf8("DD_EXEC_T_PARENT_SPAN_ID"@) + seq![0x3du8] + encode_utf8(
                    parent.text(),
                );
                if entry.contains(0) {
                    context.stored(entries).len() == entries.len() + 2
                } else {
                    &&& context.stored(entries).len() == entries.len() + 3
                    &&& context.stored(entries)[(entries.len() + 2) as int] == entry
                }
            },
            None => context.stored(entries).len() == entries.len() + 2,
        },
        context.storable() <==> !context.trace_entry().contains(0)
            && !context.span_entry().contains(0),
{
    let stored = context.stored(entries);
    lemma_keys();
    assert(stored.take(entries.len() as int) =~= entries);
    lemma_nul_free(context.trace_entry());
    lemma_nul_free(context.span_entry());
    lemma_no_equals(env_trace_id());
    lemma_no_equals(env_span_id());
    lemma_no_equals(env_parent_span_id());
    value_is_read_back(env_trace_id(), Seq::empty(), context.trace_id.text());
    value_is_read_back(env_span_id(), Seq::empty(), context.span_id.text());
    if let Some(parent) = context.parent_span_id {
        value_is_read_back(env_parent_span_id(), Seq::empty(), parent.text());
        lemma_nul_free(assignment(env_parent_span_id(), parent.text()));
    }
}

proof fn lemma_no_equals(key: Seq<u8>)
    requires
        forall|i: int| 0 <= i < key.len() ==> key[i] != 0x3d,
    ensures
        !key.contains(0x3d),
{
}

proof fn lemma_nul_free(s: Seq<u8>)
    ensures
        nul_free(s) <==> !s.contains(0),
{
    if s.contains(0) {
        let i = s.index_of(0);
        assert(s[i] == 0);
    }
    if !nul_free(s) {
        let i = choose|i: int| 0 <= i < s.len() && s[i] == 0;
        assert(s.contains(s[i]));
    }
}

/// Whether the entry at `i` is the last one that assigns to a variable.
pub open spec fn assigned_last_at(entries: Seq<Seq<u8>>, key: Seq<u8>, i: int) -> bool {
    &&& 0 <= i < entries.len()
    &&& starts_with(entries[i], key + seq![0x3du8])
    &&& forall|j: int|
        i < j < entries.len() ==> !starts_with(#[trigger] entries[j], key + seq![0x3du8])
}

/// Whether no entry assigns to a variable.
pub open spec fn never_assigned(entries: Seq<Seq<u8>>, key: Seq<u8>) -> bool {
    forall|j: int|
        0 <= j < entries.len() ==> !starts_with(#[trigger] entries[j], key + seq![0x3du8])
}

/// A context is read from the last assignments of an environment, which are taken out of it. The
/// other entries stay in order. Without a trace nothing is taken out. Without a span there is no
/// context.
pub proof fn context_is_read_from_the_last_assignments(
    entries: Seq<Seq<u8>>,
    trace: int,
    span: int,
    parent: int,
)
    ensures
        ({
            let (context, rest) = extracted(entries);
            let without_trace = entries.remove(trace);
            let without_span = without_trace.remove(span);
            &&& never_assigned(entries, encode_utf8("DD_EXEC_T_TRACE_ID"@)) ==> context is None
                && rest == entries
            &&& assigned_last_at(entries, encode_utf8("DD_EXEC_T_TRACE_ID"@), trace) ==> {
                &&& never_assigned(without_trace, encode_utf8("DD_EXEC_T_SPAN_ID"@)) ==> context
                    is None && rest == without_trace
                &&& assigned_last_at(without_trace, encode_utf8("DD_EXEC_T_SPAN_ID"@), span) ==> {
                    &&& context matches Some(c) && c.trace_id == id_of_bytes(
                        entries[trace].skip(19),
                    ) && c.span_id == id_of_bytes(without_trace[span].skip(18))
                    &&& never_assigned(without_span, encode_utf8("DD_EXEC_T_PARENT_SPAN_ID"@))
                        ==> context->0.parent_span_id is None && rest == without_span
                    &&& assigned_last_at(
                        without_span,
                        encode_utf8("DD_EXEC_T_PARENT_SPAN_ID"@),
                        parent,
                    ) ==> context->0.parent_span_id == Some(
                        id_of_bytes(without_span[parent].skip(25)),
                    ) && rest == without_span.remove(parent)
                }
            }
        }),
{
    lemma_keys();
    lemma_key_lengths();
    let without_trace = entries.remove(trace);
    let without_span = without_trace.remove(span);
    lemma_assigned_last(entries, env_trace_id(), trace);
    lemma_assigned_last(without_trace, env_span_id(), span);
    lemma_assigned_last(without_span, env_parent_span_id(), parent);
}

proof fn lemma_key_lengths()
    ensures
        env_trace_id().len() == 18,
        env_span_id().len() == 17,
        env_parent_span_id().len() == 24,
{
    reveal_strlit("DD_EXEC_T_TRACE_ID");
    reveal_strlit("DD_EXEC_T_SPAN_ID");
    reveal_strlit("DD_EXEC_T_PARENT_SPAN_ID");
    assert(is_ascii_chars("DD_EXEC_T_TRACE_ID"@));
    assert(is_ascii_chars("DD_EXEC_T_SPAN_ID"@));
    assert(is_ascii_chars("DD_EXEC_T_PARENT_SPAN_ID"@));
    is_ascii_chars_encode_utf8("DD_EXEC_T_TRACE_ID"@);
    is_ascii_chars_encode_utf8("DD_EXEC_T_SPAN_ID"@);
    is_ascii_chars_encode_utf8("DD_EXEC_T_PARENT_SPAN_ID"@);
}

proof fn lemma_assigned_last(entries: Seq<Seq<u8>>, key: Seq<u8>, i: int)
    requires
        forall|j: int| 0 <= j < key.len() ==> key[j] != 0x3d,
    ensures
        assigned_last_at(entries, key, i) ==> last_assignment(entries, key) == Some(i)
            && assigned_value(entries[i]) == entries[i].skip((key.len() + 1) as int),
        never_assigned(entries, key) ==> last_assignment(entries, key) is None,
    decreases entries.len(),
{
    assert(key + seq![0x3du8] =~= key.push(0x3d));
    lemma_no_equals(key);
    if assigned_last_at(entries, key, i) {
        let value = entries[i].skip((key.len() + 1) as int);
        assert(entries[i] =~= entries[i].take((key.len() + 1) as int) + value);
        assert(entries[i] =~= key + seq![0x3du8] + value);
        value_is_read_back(key, value, Seq::empty());
        if i < entries.len() - 1 {
            let less = entries.drop_last();
            assert(!starts_with(entries[entries.len() - 1], key + seq![0x3du8]));
            assert forall|j: int| i < j < less.len() implies !starts_with(
                #[trigger] less[j],
                key + seq![0x3du8],
            ) by {
                assert(less[j] == entries[j]);
            }
            lemma_assigned_last(less, key, i);
        }
    }
    if never_assigned(entries, key) && entries.len() > 0 {
        let less = entries.drop_last();
        assert(!starts_with(entries[entries.len() - 1], key + seq![0x3du8]));
        assert forall|j: int| 0 <= j < less.len() implies !starts_with(
            #[trigger] less[j],
            key + seq![0x3du8],
        ) by {
            assert(less[j] == entries[j]);
        }
        lemma_assigned_last(less, key, i);
    }
}

/// A child is part of the trace of its parent, has a span of its own, and names the span of its
/// parent.
pub proof fn child_belongs_to_its_parent(context: TraceContextView, span_id: IdView)
    ensures
        context.child(span_id).trace_id == context.trace_id,
        context.child(span_id).span_id == span_id,
        context.child(span_id).parent_span_id == Some(context.span_id),
{
}

/// Taking a variable out of an environment takes out the last assignment to it. The other entries
/// stay, in order, and where there is no assignment, all of them do.
pub proof fn last_assignment_is_taken_out(entries: Seq<Seq<u8>>, key: Seq<u8>, i: int)
    requires
        forall|j: int| 0 <= j < key.len() ==> key[j] != 0x3d,
    ensures
        assigned_last_at(entries, key, i) ==> without(entries, key) == entries.take(i)
            + entries.skip(i + 1),
        never_assigned(entries, key) ==> without(entries, key) == entries,
{
    lemma_assigned_last(entries, key, i);
    if assigned_last_at(entries, key, i) {
        assert(entries.remove(i) =~= entries.take(i) + entries.skip(i + 1));
    }
}

} // verus!
