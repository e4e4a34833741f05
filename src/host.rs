use vstd::prelude::*;

verus! {

/// A piece of outside work that an evaluation needs done: the caller
/// performs it and answers with a `Reply`.
#[derive(Debug)]
pub enum Request {
    /// The whole text of a file.
    ReadFile(String),
    /// Open a file for reading, as port `id`.
    OpenRead(String, usize),
    /// Open a file for writing, as port `id`.
    OpenWrite(String, usize),
    /// The next line of the file open as port `id`.
    ReadLine(usize),
    /// Write text to the file open as port `id`.
    WriteText(usize, String),
    /// Close the file open as port `id`.
    Close(usize),
}

/// The caller's answer to a `Request`.
#[derive(Debug)]
pub enum Reply {
    Text(String),
    Done,
    Failed(String),
}

/// The mathematical form of a `Request`.
pub enum RequestModel {
    ReadFile(Seq<char>),
    OpenRead(Seq<char>, usize),
    OpenWrite(Seq<char>, usize),
    ReadLine(usize),
    WriteText(usize, Seq<char>),
    Close(usize),
}

/// The mathematical form of a `Reply`.
pub enum ReplyModel {
    Text(Seq<char>),
    Done,
    Failed(Seq<char>),
}

impl View for Request {
    type V = RequestModel;

    open spec fn view(&self) -> RequestModel {
        match *self {
            Request::ReadFile(p) => RequestModel::ReadFile(p@),
            Request::OpenRead(p, id) => RequestModel::OpenRead(p@, id),
            Request::OpenWrite(p, id) => RequestModel::OpenWrite(p@, id),
            Request::ReadLine(id) => RequestModel::ReadLine(id),
            Request::WriteText(id, t) => RequestModel::WriteText(id, t@),
            Request::Close(id) => RequestModel::Close(id),
        }
    }
}

impl View for Reply {
    type V = ReplyModel;

    open spec fn view(&self) -> ReplyModel {
        match *self {
            Reply::Text(t) => ReplyModel::Text(t@),
            Reply::Done => ReplyModel::Done,
            Reply::Failed(m) => ReplyModel::Failed(m@),
        }
    }
}

impl Clone for Request {
    fn clone(&self) -> (r: Self)
        ensures
            r@ == self@,
    {
        match self {
            Request::ReadFile(p) => Request::ReadFile(p.clone()),
            Request::OpenRead(p, id) => Request::OpenRead(p.clone(), *id),
            Request::OpenWrite(p, id) => Request::OpenWrite(p.clone(), *id),
            Request::ReadLine(id) => Request::ReadLine(*id),
            Request::WriteText(id, t) => Request::WriteText(*id, t.clone()),
            Request::Close(id) => Request::Close(*id),
        }
    }
}

impl Clone for Reply {
    fn clone(&self) -> (r: Self)
        ensures
            r@ == self@,
    {
        match self {
            Reply::Text(t) => Reply::Text(t.clone()),
            Reply::Done => Reply::Done,
            Reply::Failed(m) => Reply::Failed(m.clone()),
        }
    }
}

pub open spec fn replies_view(rs: Seq<Reply>) -> Seq<ReplyModel> {
    rs.map_values(|r: Reply| r@)
}

/// Copies a sequence of replies.
pub fn clone_replies(rs: &Vec<Reply>) -> (r: Vec<Reply>)
    ensures
        replies_view(r@) == replies_view(rs@),
{
    let mut out: Vec<Reply> = Vec::new();
    let mut i: usize = 0;
    while i < rs.len()
        invariant
            i <= rs.len(),
            out@.len() == i,
            forall|j: int| 0 <= j < i ==> (#[trigger] out@[j])@ == rs@[j]@,
        decreases rs.len() - i,
    {
        out.push(rs[i].clone());
        i = i + 1;
    }
    proof {
        assert(replies_view(out@) =~= replies_view(rs@));
    }
    out
}

/// The state of a port: open for reading, open for writing, or closed.
#[derive(Clone, Copy, Debug, PartialEq, Eq, Structural)]
pub enum PortState {
    Read,
    Write,
    Closed,
}

} // verus!
