pub mod error;
pub mod gzip;
pub mod handler;
pub mod headers;
pub mod laws;
pub mod lex;
pub mod line;
pub mod message;
pub mod parse;
pub mod parser;
pub mod request;
pub mod response;
pub mod routes;
pub mod status;
pub mod stream;

use vstd::prelude::*;

verus! {

use crate::handler::{response_matches, spec_plan, HandleStep, Handler, PlanV};
use crate::request::Request;

/// The server's configuration: the optional base directory that the `files`
/// route serves from.
#[derive(Debug, Clone)]
pub struct Cli {
    pub directory: Option<String>,
}

/// The bytes to write back, and whether the connection stays open.
#[derive(Debug)]
pub enum ServerResponse {
    Continue(Vec<u8>),
    Close(Vec<u8>),
}

impl ServerResponse {
    /// The wire bytes to send, whichever way the connection goes on.
    pub fn data(&self) -> (d: &Vec<u8>)
        ensures
            match self {
                ServerResponse::Continue(b) => d@ == b@,
                ServerResponse::Close(b) => d@ == b@,
            },
    {
        match self {
            ServerResponse::Continue(data) => data,
            ServerResponse::Close(data) => data,
        }
    }
}

/// Dispatch one parsed request: either the finished response, or the
/// filesystem action the `files` route needs before `Handler::finish_file`
/// can answer.
pub fn handle_request(cli: Cli, request: Request) -> (r: HandleStep)
    ensures
        match spec_plan(request@) {
            PlanV::Ready(out) => r matches HandleStep::Done(sr) && sr matches
                ServerResponse::Continue(bytes) && response_matches(request@, out, bytes@),
            PlanV::Read(f) => r matches HandleStep::FileRead { handler, filename } && handler.request
                == request && filename@ == f,
            PlanV::Write(f, c) => r matches HandleStep::FileWrite { handler, filename, content }
                && handler.request == request && filename@ == f && content@ == c,
        },
{
    let handler = Handler::new(request, cli.directory);
    handler.process()
}

} // verus!
