//! Extensions: handlers that may rewrite frames, kept under names.

use vstd::prelude::*;
use vstd::string::StringExecFns;
use crate::error::VstpError;
use crate::types::Frame;

verus! {

/// A protocol extension, for users of the library to implement. Nothing
/// is known of what a handler answers.
pub trait ExtensionHandler {
    /// Whether the handler wants the frame.
    fn should_handle(&self, frame: &Frame) -> bool;

    /// Processes a frame.
    fn handle_frame(&self, frame: Frame) -> Result<Frame, VstpError>;
}

/// A handler under its name.
pub struct Registered<H> {
    pub name: String,
    pub handler: H,
}

/// What a registry holds: the names and the handlers, in the
/// order in which the names were first registered.
pub struct RegistryView<H> {
    pub names: Seq<Seq<char>>,
    pub handlers: Seq<H>,
}

/// The index of a name, or the number of names when it is not there.
pub open spec fn name_index(names: Seq<Seq<char>>, name: Seq<char>) -> int
    decreases names.len(),
{
    if names.len() == 0 {
        0
    } else if names[0] == name {
        0
    } else {
        1 + name_index(names.drop_first(), name)
    }
}

/// What becomes of a frame at one handler, given what the handler
/// answered: without an answer, because the handler did not want the frame,
/// the frame goes on as it is; a rewritten frame goes on in its place; an
/// error ends the processing.
pub fn with_answer(current: Frame, answer: Option<Result<Frame, VstpError>>) -> (r: Result<
    Frame,
    VstpError,
>)
    ensures
        match answer {
            None => r == Ok::<Frame, VstpError>(current),
            Some(Ok(out)) => r == Ok::<Frame, VstpError>(out),
            Some(Err(e)) => r == Err::<Frame, VstpError>(e),
        },
{
    match answer {
        None => Ok(current),
        Some(Ok(out)) => Ok(out),
        Some(Err(e)) => Err(e),
    }
}

/// Keeps extension handlers under their names.
pub struct ExtensionRegistry<H> {
    entries: Vec<Registered<H>>,
}

impl<H> View for ExtensionRegistry<H> {
    type V = RegistryView<H>;

    closed spec fn view(&self) -> RegistryView<H> {
        RegistryView {
            names: Seq::new(self.entries@.len(), |i: int| self.entries@[i].name@),
            handlers: Seq::new(self.entries@.len(), |i: int| self.entries@[i].handler),
        }
    }
}

/// At the index of a name stands the name.
pub proof fn lemma_name_index_props(names: Seq<Seq<char>>, name: Seq<char>)
    ensures
        0 <= name_index(names, name) <= names.len(),
        name_index(names, name) < names.len() ==> names[name_index(names, name)] == name,
    decreases names.len(),
{
    if names.len() > 0 && names[0] != name {
        lemma_name_index_props(names.drop_first(), name);
    }
}

/// The index of a name, seen from an index before which it does not occur.
pub proof fn lemma_name_index_from(names: Seq<Seq<char>>, name: Seq<char>, i: int)
    requires
        0 <= i <= names.len(),
        forall|j: int| 0 <= j < i ==> names[j] != name,
    ensures
        name_index(names, name) == i + name_index(names.skip(i), name),
    decreases i,
{
    if i == 0 {
        assert(names.skip(0) =~= names);
    } else {
        let rest = names.drop_first();
        assert forall|j: int| 0 <= j < i - 1 implies rest[j] != name by {
            assert(rest[j] == names[j + 1]);
        }
        lemma_name_index_from(rest, name, i - 1);
        assert(rest.skip(i - 1) =~= names.skip(i));
    }
}

impl<H: ExtensionHandler> ExtensionRegistry<H> {
    /// Whether names and handlers go in pairs.
    pub open spec fn wf(&self) -> bool {
        self@.names.len() == self@.handlers.len()
    }

    /// An empty registry.
    pub fn new() -> (r: ExtensionRegistry<H>)
        ensures
            r.wf(),
            r@.names == Seq::<Seq<char>>::empty(),
            r@.handlers == Seq::<H>::empty(),
    {
        let r = ExtensionRegistry { entries: Vec::new() };
        assert(r@.names =~= Seq::<Seq<char>>::empty());
        assert(r@.handlers =~= Seq::<H>::empty());
        r
    }

    /// The index of a name, or the number of names when it is not there.
    pub fn find(&self, name: &str) -> (at: usize)
        ensures
            at == name_index(self@.names, name@),
            at <= self@.names.len(),
    {
        let wanted = String::from_str(name);
        let mut i: usize = 0;
        while i < self.entries.len()
            invariant
                i <= self.entries@.len(),
                wanted@ == name@,
                self@.names.len() == self.entries@.len(),
                forall|j: int| 0 <= j < i ==> self@.names[j] != name@,
            decreases self.entries@.len() - i,
        {
            assert(self@.names[i as int] == self.entries@[i as int].name@);
            if self.entries[i].name == wanted {
                proof {
                    lemma_name_index_from(self@.names, name@, i as int);
                    assert(self@.names.skip(i as int)[0] == self@.names[i as int]);
                }
                return i;
            }
            i += 1;
        }
        proof {
            lemma_name_index_from(self@.names, name@, i as int);
        }
        i
    }

    /// Registers a handler under a name. A handler already under that name
    /// is replaced, in its place; a new name goes to the end.
    pub fn register(&mut self, name: &str, handler: H)
        ensures
            final(self).wf(),
            ({
                let at = name_index(old(self)@.names, name@);
                if at < old(self)@.names.len() {
                    final(self)@.names == old(self)@.names && final(self)@.handlers == old(
                        self,
                    )@.handlers.update(at, handler)
                } else {
                    final(self)@.names == old(self)@.names.push(name@)
                        && final(self)@.handlers == old(self)@.handlers.push(handler)
                }
            }),
    {
        let at = self.find(name);
        let entry = Registered { name: String::from_str(name), handler };
        proof {
            lemma_name_index_props(self@.names, name@);
        }
        if at < self.entries.len() {
            self.entries.set(at, entry);
            assert(self@.names =~= old(self)@.names);
            assert(self@.handlers =~= old(self)@.handlers.update(at as int, handler));
        } else {
            self.entries.push(entry);
            assert(self@.names =~= old(self)@.names.push(name@));
            assert(self@.handlers =~= old(self)@.handlers.push(handler));
        }
    }

    /// The handler under a name.
    pub fn get_handler(&self, name: &str) -> (r: Option<&H>)
        ensures
            ({
                let at = name_index(self@.names, name@);
                if at < self@.names.len() {
                    r == Some(&self@.handlers[at])
                } else {
                    r is None
                }
            }),
    {
        let at = self.find(name);
        if at < self.entries.len() {
            Some(&self.entries[at].handler)
        } else {
            None
        }
    }

    /// Takes the handler under a name out of the registry.
    pub fn unregister(&mut self, name: &str) -> (r: Option<H>)
        ensures
            final(self).wf(),
            ({
                let at = name_index(old(self)@.names, name@);
                if at < old(self)@.names.len() {
                    r == Some(old(self)@.handlers[at]) && final(self)@.names == old(
                        self,
                    )@.names.remove(at) && final(self)@.handlers == old(self)@.handlers.remove(at)
                } else {
                    r is None && final(self)@ == old(self)@
                }
            }),
    {
        let at = self.find(name);
        if at < self.entries.len() {
            let entry = self.entries.remove(at);
            assert(self@.names =~= old(self)@.names.remove(at as int));
            assert(self@.handlers =~= old(self)@.handlers.remove(at as int));
            Some(entry.handler)
        } else {
            None
        }
    }

    /// Passes a frame through the handlers, in the order in which their
    /// names were first registered: each handler that wants the frame as it
    /// then is rewrites it, and the first error ends the processing. With
    /// no handler registered the frame comes back as it is.
    pub fn process_frame(&self, frame: Frame) -> (r: Result<Frame, VstpError>)
        ensures
            self@.handlers.len() == 0 ==> r is Ok && r->Ok_0@ == frame@,
            processed(self@.handlers, frame, r),
    {
        let ghost handlers = self@.handlers;
        let mut current = frame;
        let mut i: usize = 0;
        assert(handlers.skip(0) =~= handlers);
        while i < self.entries.len()
            invariant
                i <= self.entries@.len(),
                handlers == self@.handlers,
                handlers.len() == self.entries@.len(),
                forall|r: Result<Frame, VstpError>| #[trigger]
                    processed(handlers.skip(i as int), current, r) ==> processed(
                        handlers,
                        frame,
                        r,
                    ),
            decreases self.entries@.len() - i,
        {
            let ghost rest = handlers.skip(i as int);
            let ghost before = current;
            proof {
                assert(rest[0] == self.entries@[i as int].handler);
                assert(rest.drop_first() =~= handlers.skip(i + 1));
            }
            let wanted = asks(&self.entries[i].handler, &current);
            let ghost mut given = current;
            let answer = if wanted {
                let copy = current.duplicate();
                proof {
                    given = copy;
                }
                Some(hands(&self.entries[i].handler, copy))
            } else {
                None
            };
            let made = with_answer(current, answer);
            proof {
                assert(call_ensures(H::should_handle, (&rest[0], &before), wanted));
                if wanted {
                    assert(call_ensures(H::handle_frame, (&rest[0], given), made));
                }
                assert(handler_makes(rest[0], before, made));
            }
            match made {
                Ok(next) => {
                    proof {
                        assert forall|r: Result<Frame, VstpError>| #[trigger]
                            processed(handlers.skip(i + 1), next, r) implies processed(
                            handlers,
                            frame,
                            r,
                        ) by {
                            lemma_processed_step(rest, before, Ok(next), r);
                        }
                    }
                    current = next;
                },
                Err(e) => {
                    proof {
                        lemma_processed_step(rest, before, Err(e), Err(e));
                    }
                    return Err(e);
                },
            }
            i += 1;
        }
        assert(handlers.skip(i as int).len() == 0);
        assert(processed(handlers.skip(i as int), current, Ok(current)));
        Ok(current)
    }
}

/// Asks a handler whether it wants a frame. The answer is one that the
/// handler's own `should_handle` gives for the frame.
pub fn asks<H: ExtensionHandler>(handler: &H, frame: &Frame) -> (wanted: bool)
    ensures
        call_ensures(H::should_handle, (handler, frame), wanted),
{
    handler.should_handle(frame)
}

/// Hands a frame to a handler. The answer is one that the handler's own
/// `handle_frame` gives for the frame.
pub fn hands<H: ExtensionHandler>(handler: &H, frame: Frame) -> (answer: Result<Frame, VstpError>)
    ensures
        call_ensures(H::handle_frame, (handler, frame), answer),
{
    handler.handle_frame(frame)
}

/// Whether `r` is what one handler may make of a frame. The handler is
/// asked whether it wants the frame. If it does not, the frame goes on as
/// it is. If it does, the handler is handed a copy of the frame, and what it
/// answers goes on: a frame in place of the one it was handed, or an error.
pub open spec fn handler_makes<H: ExtensionHandler>(
    handler: H,
    current: Frame,
    r: Result<Frame, VstpError>,
) -> bool {
    ||| call_ensures(H::should_handle, (&handler, &current), false) && r == Ok::<
        Frame,
        VstpError,
    >(current)
    ||| call_ensures(H::should_handle, (&handler, &current), true) && exists|given: Frame|
        given@ == current@ && #[trigger] call_ensures(H::handle_frame, (&handler, given), r)
}

/// Whether `r` is what the handlers may make of a frame, one after the
/// other: with no handler left the frame itself; else what the first
/// handler makes of it, handed on to the others if it is a frame, and final
/// if it is an error.
pub open spec fn processed<H: ExtensionHandler>(
    handlers: Seq<H>,
    frame: Frame,
    r: Result<Frame, VstpError>,
) -> bool
    decreases handlers.len(),
{
    if handlers.len() == 0 {
        r == Ok::<Frame, VstpError>(frame)
    } else {
        exists|mid: Result<Frame, VstpError>| #[trigger]
            handler_makes(handlers[0], frame, mid) && (match mid {
                Ok(next) => processed(handlers.drop_first(), next, r),
                Err(e) => r == Err::<Frame, VstpError>(e),
            })
    }
}

/// What the first handler makes of a frame, and what the others make of
/// that, is what all of them make of the frame.
pub proof fn lemma_processed_step<H: ExtensionHandler>(
    handlers: Seq<H>,
    frame: Frame,
    mid: Result<Frame, VstpError>,
    r: Result<Frame, VstpError>,
)
    requires
        handlers.len() > 0,
        handler_makes(handlers[0], frame, mid),
        match mid {
            Ok(next) => processed(handlers.drop_first(), next, r),
            Err(e) => r == Err::<Frame, VstpError>(e),
        },
    ensures
        processed(handlers, frame, r),
{
}

} // verus!
