//! Opening a file from Explorer without starting a process: the resident viewer serves the "open"
//! verb itself, as a COM local server.
//!
//! With a plain command line, a double click makes Explorer start a process that only finds the
//! resident copy and hands it the path. With a class of ours registered for the verb, Explorer asks
//! COM for it, and the call lands straight in the running viewer's message loop.
//!
//! There are two objects: a class factory, and a command with two interfaces, one that is handed
//! what was double-clicked and one that opens it.

use crate::com::{is_id, Guid};
use vstd::prelude::*;

verus! {

/// Our command's class.
pub const CLSID: u128 = 0x5a2f9c3e_7b41_4d8e_9c6a_1e2b3c4d5f60;

pub const IID_IUNKNOWN: u128 = 0x00000000_0000_0000_c000_000000000046;

pub const IID_ICLASS_FACTORY: u128 = 0x00000001_0000_0000_c000_000000000046;

pub const IID_IEXECUTE_COMMAND: u128 = 0x7f9185b0_cb92_43c5_80a9_92277a4f7b54;

pub const IID_IOBJECT_WITH_SELECTION: u128 = 0x1c9cd5bb_98e9_4491_a60f_31aacc72b83c;

pub const S_OK: i32 = 0;

pub const E_NOINTERFACE: i32 = -0x7fff_bffe;

pub const E_POINTER: i32 = -0x7fff_bffd;

pub const CLASS_E_NOAGGREGATION: i32 = -0x7ffb_fef0;

/// Which of an object's interfaces a caller is given.
#[derive(Clone, Copy, PartialEq, Eq, Structural)]
pub enum Face {
    Execute,
    Selection,
    Factory,
}

/// What goes where the caller asked for a pointer.
#[derive(Clone, Copy, PartialEq, Eq, Structural)]
pub enum Given {
    /// There is nowhere to write to.
    Nowhere,
    Null,
    Pointer(Face),
}

/// An answer: the code, and what is written.
#[derive(Clone, Copy, PartialEq, Eq, Structural)]
pub struct Answer {
    pub hr: i32,
    pub out: Given,
}

/// The command object: how many references to it there are, and the file it was handed.
pub struct Command {
    pub refs: u32,
    pub path: Option<Vec<u16>>,
}

/// The face of the command that an identifier asks for.
pub open spec fn command_face(iid: Guid) -> Option<Face> {
    if iid.spells(IID_IUNKNOWN) || iid.spells(IID_IEXECUTE_COMMAND) {
        Some(Face::Execute)
    } else if iid.spells(IID_IOBJECT_WITH_SELECTION) {
        Some(Face::Selection)
    } else {
        None
    }
}

/// The answer to a question for a face.
pub open spec fn answered(face: Option<Face>, out: bool) -> Answer {
    if !out {
        Answer { hr: E_POINTER, out: Given::Nowhere }
    } else {
        match face {
            Some(f) => Answer { hr: S_OK, out: Given::Pointer(f) },
            None => Answer { hr: E_NOINTERFACE, out: Given::Null },
        }
    }
}

impl Command {
    /// A fresh object, with the reference of whoever made it.
    pub fn new() -> (r: Command)
        ensures
            r.refs == 1,
            r.path is None,
    {
        Command { refs: 1, path: None }
    }

    /// Another interface of the object; a pointer given out is a reference more.
    pub fn query(&mut self, iid: &Guid, out: bool) -> (r: Answer)
        ensures
            r == answered(command_face(*iid), out),
            final(self).path == old(self).path,
            final(self).refs == (if r.hr == S_OK {
                old(self).refs.wrapping_add(1)
            } else {
                old(self).refs
            }),
    {
        if !out {
            return Answer { hr: E_POINTER, out: Given::Nowhere };
        }
        let face = if is_id(iid, IID_IUNKNOWN) || is_id(iid, IID_IEXECUTE_COMMAND) {
            Face::Execute
        } else if is_id(iid, IID_IOBJECT_WITH_SELECTION) {
            Face::Selection
        } else {
            return Answer { hr: E_NOINTERFACE, out: Given::Null };
        };
        self.refs = self.refs.wrapping_add(1);
        Answer { hr: S_OK, out: Given::Pointer(face) }
    }

    pub fn add_ref(&mut self) -> (n: u32)
        ensures
            n == old(self).refs.wrapping_add(1),
            final(self).refs == n,
            final(self).path == old(self).path,
    {
        self.refs = self.refs.wrapping_add(1);
        self.refs
    }

    /// A reference less; the object goes with the last one, when this gives zero.
    pub fn release(&mut self) -> (n: u32)
        requires
            old(self).refs > 0,
        ensures
            n == old(self).refs - 1,
            final(self).refs == n,
            final(self).path == old(self).path,
    {
        self.refs = self.refs - 1;
        self.refs
    }

    /// Explorer hands over what was double-clicked: the first item's file path, where it has one.
    pub fn set_selection(&mut self, path: Option<Vec<u16>>) -> (hr: i32)
        ensures
            hr == S_OK,
            final(self).refs == old(self).refs,
            final(self).path == (if path is Some {
                path
            } else {
                old(self).path
            }),
    {
        if path.is_some() {
            self.path = path;
        }
        S_OK
    }

    /// The file to open: handed out once.
    pub fn execute(&mut self) -> (path: Option<Vec<u16>>)
        ensures
            path == old(self).path,
            final(self).path is None,
            final(self).refs == old(self).refs,
    {
        self.path.take()
    }
}

/// What was selected is never handed back.
pub fn get_selection(out: bool) -> (r: Answer)
    ensures
        r.hr == E_NOINTERFACE,
        r.out == (if out {
            Given::Null
        } else {
            Given::Nowhere
        }),
{
    Answer {
        hr: E_NOINTERFACE,
        out: if out {
            Given::Null
        } else {
            Given::Nowhere
        },
    }
}

pub fn factory_query(iid: &Guid, out: bool) -> (r: Answer)
    ensures
        r == answered(
            if iid.spells(IID_IUNKNOWN) || iid.spells(IID_ICLASS_FACTORY) {
                Some(Face::Factory)
            } else {
                None
            },
            out,
        ),
{
    if !out {
        Answer { hr: E_POINTER, out: Given::Nowhere }
    } else if is_id(iid, IID_IUNKNOWN) || is_id(iid, IID_ICLASS_FACTORY) {
        Answer { hr: S_OK, out: Given::Pointer(Face::Factory) }
    } else {
        Answer { hr: E_NOINTERFACE, out: Given::Null }
    }
}

/// Make a command. It is asked for the interface, and the reference it was made with is dropped:
/// it lives on only where the caller got a pointer, with that one reference.
pub fn factory_create(outer: bool, iid: &Guid, out: bool) -> (r: (Answer, Option<Command>))
    ensures
        outer ==> r.0 == (Answer { hr: CLASS_E_NOAGGREGATION, out: Given::Nowhere }) && r.1 is None,
        !outer ==> r.0 == answered(command_face(*iid), out),
        r.1 is Some <==> r.0.hr == S_OK,
        r.1 matches Some(c) ==> c.refs == 1 && c.path is None,
{
    if outer {
        return (Answer { hr: CLASS_E_NOAGGREGATION, out: Given::Nowhere }, None);
    }
    let mut c = Command::new();
    let answer = c.query(iid, out);
    let left: u32 = c.release();
    if left == 0 {
        (answer, None)
    } else {
        (answer, Some(c))
    }
}

/// A command is asked for by name or as a bare object, and for what it is handed; nothing else is given
/// out of it.
pub proof fn law_command_faces(iid: Guid)
    ensures
        iid.spells(0x00000000_0000_0000_c000_000000000046) ==> command_face(iid) == Some(Face::Execute),
        iid.spells(0x7f9185b0_cb92_43c5_80a9_92277a4f7b54) ==> command_face(iid) == Some(Face::Execute),
        iid.spells(0x1c9cd5bb_98e9_4491_a60f_31aacc72b83c) ==> command_face(iid) == Some(Face::Selection),
        command_face(iid) is Some ==> iid.data1 == 0 || iid.data1 == 0x7f9185b0 || iid.data1 == 0x1c9cd5bb,
{
}

/// A pointer is given exactly where there is somewhere to write it and the face is there, and then the
/// answer is no error; else it is one, and nothing but a null is written.
pub proof fn law_answered(face: Option<Face>, out: bool)
    ensures
        answered(face, out).hr >= 0 <==> face is Some && out,
        answered(face, out).out is Pointer <==> face is Some && out,
        face is Some && out ==> answered(face, out).out == Given::Pointer(face->0) && answered(face, out).hr
            == 0,
        !out ==> answered(face, out).out == Given::Nowhere && answered(face, out).hr + 0x1_0000_0000
            == 0x8000_4003,
        face is None && out ==> answered(face, out).out == Given::Null && answered(face, out).hr
            + 0x1_0000_0000 == 0x8000_4002,
{
}

} // verus!
