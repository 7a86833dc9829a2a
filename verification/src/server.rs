use crate::indexer::{indexed_files, parsed_views, stats_of, CodeIndexer, IndexerState, ParsedFile};
use crate::parser::{lookup, of_kind, symbol_ref_records, SymbolRecord};
use crate::protocol::{
    definition_records, stats_response, ChangeProjectParams, ChangeProjectResponse,
    FindDefinitionParams, FindDefinitionResponse, StatsResponse, SymbolDefinition,
};
use vstd::prelude::*;
use vstd::string::StringExecFns;

verus! {

/// The port on which the server listens unless another is given.
pub const DEFAULT_PORT: u16 = 7777;

/// What a request asks for.
#[derive(Debug, Clone, Copy, PartialEq, Eq, Structural)]
pub enum Method {
    FindDefinition,
    GetStats,
    HealthCheck,
    ChangeProject,
    Unknown,
}

/// The parameters of a request, as far as they could be read.
#[derive(Debug, Clone)]
pub enum RequestParams {
    FindDefinition(FindDefinitionParams),
    ChangeProject(ChangeProjectParams),
    /// The parameters are not of the form that the method asks for.
    Invalid,
    /// The method takes no parameters.
    Unused,
}

/// A request: a number that the answer repeats, the name of a method, and
/// the parameters.
#[derive(Debug, Clone)]
pub struct ServerRequest {
    pub id: u64,
    pub method: String,
    pub params: RequestParams,
}

/// What a request is answered with where it succeeds.
#[derive(Debug, Clone)]
pub enum ResponseBody {
    Definitions(FindDefinitionResponse),
    Stats(StatsResponse),
    Health { status: String, timestamp: i64 },
    ChangeProject(ChangeProjectResponse),
}

/// An answer: the number of the request, and either a result or an error.
#[derive(Debug, Clone)]
pub struct ServerResponse {
    pub id: u64,
    pub result: Option<ResponseBody>,
    pub error: Option<String>,
}

/// Why a request could not be handled.
#[derive(Debug, Clone, Copy, PartialEq, Eq, Structural)]
pub enum RequestError {
    /// The line is no request.
    MalformedRequest,
    /// The parameters of `find_definition` could not be read.
    InvalidFindDefinitionParams,
    /// The parameters of `change_project` could not be read.
    InvalidChangeProjectParams,
    /// The directory of the new project could not be walked to its end.
    IndexFailed,
}

/// What was found at the path of a project, with the files parsed.
#[derive(Debug)]
pub enum DirectoryScan {
    /// Nothing exists at the path.
    Missing,
    /// What exists at the path is no directory.
    NotADirectory,
    /// The walk failed; these are the files that were read before.
    Unreadable(Vec<ParsedFile>),
    /// The source files of the directory, in the order of the walk.
    Files(Vec<ParsedFile>),
}

/// The method that a name stands for.
pub open spec fn method_of(name: Seq<char>) -> Method {
    if name == "find_definition"@ {
        Method::FindDefinition
    } else if name == "get_stats"@ {
        Method::GetStats
    } else if name == "health_check"@ {
        Method::HealthCheck
    } else if name == "change_project"@ {
        Method::ChangeProject
    } else {
        Method::Unknown
    }
}

/// The text of an error.
pub open spec fn error_text(e: RequestError) -> Seq<char> {
    match e {
        RequestError::MalformedRequest => "Failed to parse request"@,
        RequestError::InvalidFindDefinitionParams => "Invalid find_definition parameters"@,
        RequestError::InvalidChangeProjectParams => "Invalid change_project parameters"@,
        RequestError::IndexFailed => "Failed to index new project"@,
    }
}

/// The records that answer a search: those of the name and of the kind,
/// and none where nothing has the name.
pub open spec fn definitions_for(s: IndexerState, name: Seq<char>, kind: Option<
    crate::protocol::SymbolType,
>) -> Seq<SymbolRecord> {
    match lookup(s.parser.groups, name) {
        Some(rs) => of_kind(rs, kind),
        None => Seq::empty(),
    }
}

/// The state of an index that holds nothing and watches nothing.
pub open spec fn empty_state() -> IndexerState {
    IndexerState {
        parser: crate::parser::ParserState { groups: Seq::empty(), calls: Seq::empty() },
        files: Seq::empty(),
        watching: false,
    }
}

impl RequestError {
    /// See `error_text`.
    pub fn message(&self) -> (r: String)
        ensures
            r@ == error_text(*self),
    {
        match self {
            RequestError::MalformedRequest => "Failed to parse request".to_string(),
            RequestError::InvalidFindDefinitionParams => "Invalid find_definition parameters"
                .to_string(),
            RequestError::InvalidChangeProjectParams => "Invalid change_project parameters"
                .to_string(),
            RequestError::IndexFailed => "Failed to index new project".to_string(),
        }
    }
}

/// See `method_of`.
pub fn classify_method(name: &str) -> (m: Method)
    ensures
        m == method_of(name@),
{
    let name = name.to_string();
    if name == "find_definition".to_string() {
        Method::FindDefinition
    } else if name == "get_stats".to_string() {
        Method::GetStats
    } else if name == "health_check".to_string() {
        Method::HealthCheck
    } else if name == "change_project".to_string() {
        Method::ChangeProject
    } else {
        Method::Unknown
    }
}

/// The answer to a request that could not be handled: it has the number 0,
/// no result, and the text of the error after `Internal error: `.
pub fn failure_response(error: RequestError) -> (r: ServerResponse)
    ensures
        r.id == 0,
        r.result is None,
        r.error is Some,
        r.error->0@ == "Internal error: "@ + error_text(error),
{
    let mut text = "Internal error: ".to_string();
    text.append(error.message().as_str());
    ServerResponse { id: 0, result: None, error: Some(text) }
}

/// The answer to a request for a method that is not known: it has the
/// number of the request, no result, and the name of the method after
/// `Unknown method: `.
pub fn unknown_method_response(id: u64, method: &str) -> (r: ServerResponse)
    ensures
        r.id == id,
        r.result is None,
        r.error is Some,
        r.error->0@ == "Unknown method: "@ + method@,
{
    let mut text = "Unknown method: ".to_string();
    text.append(method);
    ServerResponse { id, result: None, error: Some(text) }
}

/// The answer to a health check made at the time `timestamp`.
pub fn health_response(id: u64, timestamp: i64) -> (r: ServerResponse)
    ensures
        r.id == id,
        r.error is None,
        r.result matches Some(ResponseBody::Health { status, timestamp: t }) && status@ == "ok"@
            && t == timestamp,
{
    ServerResponse {
        id,
        result: Some(ResponseBody::Health { status: "ok".to_string(), timestamp }),
        error: None,
    }
}

/// The definitions of the name asked for, of the kind asked for where one
/// is given; none where nothing has the name.
pub fn handle_find_definition(indexer: &CodeIndexer, params: &FindDefinitionParams) -> (r:
    FindDefinitionResponse)
    ensures
        definition_records(r.definitions@) == definitions_for(
            indexer@,
            params.symbol_name@,
            params.symbol_type,
        ),
{
    let mut definitions: Vec<SymbolDefinition> = Vec::new();
    match indexer.find_definition(params.symbol_name.as_str(), params.symbol_type) {
        Some(symbols) => {
            let ghost rs = symbol_ref_records(symbols@);
            let mut i: usize = 0;
            assert(definition_records(definitions@) =~= rs.take(0));
            while i < symbols.len()
                invariant
                    i <= symbols@.len(),
                    rs == symbol_ref_records(symbols@),
                    definition_records(definitions@) == rs.take(i as int),
                decreases symbols.len() - i,
            {
                let ghost before = definition_records(definitions@);
                let definition = SymbolDefinition::from(symbols[i].clone());
                definitions.push(definition);
                assert(definition_records(definitions@) =~= before.push(definition@));
                assert(rs.take(i as int + 1) =~= rs.take(i as int).push(rs[i as int]));
                i += 1;
            }
            assert(rs.take(rs.len() as int) == rs);
        },
        None => {
            assert(definition_records(definitions@) =~= Seq::<SymbolRecord>::empty());
        },
    }
    FindDefinitionResponse { definitions }
}

/// The counts of the index, as they are sent.
pub fn handle_get_stats(indexer: &CodeIndexer) -> (r: StatsResponse)
    ensures
        r == stats_response(stats_of(indexer@)),
{
    StatsResponse::from(indexer.get_stats())
}

/// Puts a new project in the place of the one that is indexed. Where the
/// path leads to no directory, the answer says so and nothing changes.
/// Otherwise the path of the project is set, and the index is replaced by
/// one that holds the files found, and that watches nothing; where the walk
/// failed, with the files read before, and the request fails.
pub fn handle_change_project(
    indexer: &mut CodeIndexer,
    project_path: &mut String,
    params: &ChangeProjectParams,
    scan: &DirectoryScan,
) -> (r: Result<ChangeProjectResponse, RequestError>)
    requires
        old(indexer).wf(),
    ensures
        final(indexer).wf(),
        match *scan {
            DirectoryScan::Missing => {
                &&& final(indexer)@ == old(indexer)@
                &&& final(project_path)@ == old(project_path)@
                &&& r matches Ok(resp) && !resp.success && resp.stats is None && resp.message@
                    == "Directory does not exist: "@ + params.project_path@
            },
            DirectoryScan::NotADirectory => {
                &&& final(indexer)@ == old(indexer)@
                &&& final(project_path)@ == old(project_path)@
                &&& r matches Ok(resp) && !resp.success && resp.stats is None && resp.message@
                    == "Path is not a directory: "@ + params.project_path@
            },
            DirectoryScan::Unreadable(files) => {
                &&& final(indexer)@ == indexed_files(
                    empty_state(),
                    parsed_views(files@),
                    files@.len() as int,
                )
                &&& final(project_path)@ == params.project_path@
                &&& r == Err::<ChangeProjectResponse, RequestError>(RequestError::IndexFailed)
            },
            DirectoryScan::Files(files) => {
                &&& final(indexer)@ == indexed_files(
                    empty_state(),
                    parsed_views(files@),
                    files@.len() as int,
                )
                &&& final(project_path)@ == params.project_path@
                &&& r matches Ok(resp) && resp.success && resp.stats == Some(
                    stats_response(stats_of(final(indexer)@)),
                ) && resp.message@ == "Successfully changed project to: "@
                    + params.project_path@
            },
        },
{
    match scan {
        DirectoryScan::Missing => {
            let mut message = "Directory does not exist: ".to_string();
            message.append(params.project_path.as_str());
            Ok(ChangeProjectResponse { success: false, message, stats: None })
        },
        DirectoryScan::NotADirectory => {
            let mut message = "Path is not a directory: ".to_string();
            message.append(params.project_path.as_str());
            Ok(ChangeProjectResponse { success: false, message, stats: None })
        },
        DirectoryScan::Unreadable(files) => {
            *project_path = params.project_path.clone();
            *indexer = CodeIndexer::new();
            assert(indexer@ =~= empty_state()) by {
                assert(indexer@.parser.groups =~= Seq::empty());
                assert(indexer@.parser.calls =~= Seq::empty());
                assert(indexer@.files =~= Seq::empty());
            }
            indexer.index_parsed_files(files);
            Err(RequestError::IndexFailed)
        },
        DirectoryScan::Files(files) => {
            *project_path = params.project_path.clone();
            *indexer = CodeIndexer::new();
            assert(indexer@ =~= empty_state()) by {
                assert(indexer@.parser.groups =~= Seq::empty());
                assert(indexer@.parser.calls =~= Seq::empty());
                assert(indexer@.files =~= Seq::empty());
            }
            indexer.index_parsed_files(files);
            let stats = StatsResponse::from(indexer.get_stats());
            let mut message = "Successfully changed project to: ".to_string();
            message.append(params.project_path.as_str());
            Ok(ChangeProjectResponse { success: true, message, stats: Some(stats) })
        },
    }
}

/// Handles a request. `scan` is what was found at the path of the new
/// project; it is looked at for `change_project` alone. `timestamp` is
/// the time at which the request came, in seconds since the start of 1970;
/// it is looked at for `health_check` alone. An answer holds the number of
/// the request, and a result or an error, never both.
pub fn handle_request(
    indexer: &mut CodeIndexer,
    project_path: &mut String,
    request: &ServerRequest,
    scan: &DirectoryScan,
    timestamp: i64,
) -> (r: Result<ServerResponse, RequestError>)
    requires
        old(indexer).wf(),
    ensures
        final(indexer).wf(),
        r matches Ok(resp) ==> (resp.id == request.id && (resp.result is Some <==> resp.error
            is None)),
        method_of(request.method@) != Method::ChangeProject ==> final(indexer)@ == old(indexer)@
            && final(project_path)@ == old(project_path)@,
        method_of(request.method@) == Method::Unknown ==> (r matches Ok(resp) && resp.result
            is None && resp.error->0@ == "Unknown method: "@ + request.method@),
        method_of(request.method@) == Method::FindDefinition ==> match request.params {
            RequestParams::FindDefinition(p) => r matches Ok(resp) && resp.result matches Some(
                ResponseBody::Definitions(d),
            ) && definition_records(d.definitions@) == definitions_for(
                old(indexer)@,
                p.symbol_name@,
                p.symbol_type,
            ),
            _ => r == Err::<ServerResponse, RequestError>(
                RequestError::InvalidFindDefinitionParams,
            ),
        },
        method_of(request.method@) == Method::GetStats ==> (r matches Ok(resp) && resp.result
            matches Some(ResponseBody::Stats(s)) && s == stats_response(stats_of(old(indexer)@))),
        method_of(request.method@) == Method::HealthCheck ==> (r matches Ok(resp) && resp.result
            matches Some(ResponseBody::Health { status, timestamp: t }) && status@ == "ok"@ && t
            == timestamp),
        method_of(request.method@) == Method::ChangeProject ==> match request.params {
            RequestParams::ChangeProject(p) => match *scan {
                DirectoryScan::Missing => {
                    &&& final(indexer)@ == old(indexer)@
                    &&& final(project_path)@ == old(project_path)@
                    &&& r matches Ok(resp) && resp.result matches Some(
                        ResponseBody::ChangeProject(c),
                    ) && !c.success && c.stats is None && c.message@
                        == "Directory does not exist: "@ + p.project_path@
                },
                DirectoryScan::NotADirectory => {
                    &&& final(indexer)@ == old(indexer)@
                    &&& final(project_path)@ == old(project_path)@
                    &&& r matches Ok(resp) && resp.result matches Some(
                        ResponseBody::ChangeProject(c),
                    ) && !c.success && c.stats is None && c.message@
                        == "Path is not a directory: "@ + p.project_path@
                },
                DirectoryScan::Unreadable(files) => {
                    &&& final(indexer)@ == indexed_files(
                        empty_state(),
                        parsed_views(files@),
                        files@.len() as int,
                    )
                    &&& final(project_path)@ == p.project_path@
                    &&& r == Err::<ServerResponse, RequestError>(RequestError::IndexFailed)
                },
                DirectoryScan::Files(files) => {
                    &&& final(indexer)@ == indexed_files(
                        empty_state(),
                        parsed_views(files@),
                        files@.len() as int,
                    )
                    &&& final(project_path)@ == p.project_path@
                    &&& r matches Ok(resp) && resp.result matches Some(
                        ResponseBody::ChangeProject(c),
                    ) && c.success && c.stats == Some(stats_response(stats_of(final(indexer)@)))
                        && c.message@ == "Successfully changed project to: "@ + p.project_path@
                },
            },
            _ => final(indexer)@ == old(indexer)@ && final(project_path)@ == old(project_path)@
                && r == Err::<ServerResponse, RequestError>(
                RequestError::InvalidChangeProjectParams,
            ),
        },
{
    let id = request.id;
    match classify_method(request.method.as_str()) {
        Method::FindDefinition => match &request.params {
            RequestParams::FindDefinition(p) => {
                let found = handle_find_definition(indexer, p);
                Ok(
                    ServerResponse {
                        id,
                        result: Some(ResponseBody::Definitions(found)),
                        error: None,
                    },
                )
            },
            _ => Err(RequestError::InvalidFindDefinitionParams),
        },
        Method::GetStats => {
            let stats = handle_get_stats(indexer);
            Ok(ServerResponse { id, result: Some(ResponseBody::Stats(stats)), error: None })
        },
        Method::HealthCheck => Ok(health_response(id, timestamp)),
        Method::ChangeProject => match &request.params {
            RequestParams::ChangeProject(p) => {
                match handle_change_project(indexer, project_path, p, scan) {
                    Ok(changed) => Ok(
                        ServerResponse {
                            id,
                            result: Some(ResponseBody::ChangeProject(changed)),
                            error: None,
                        },
                    ),
                    Err(e) => Err(e),
                }
            },
            _ => Err(RequestError::InvalidChangeProjectParams),
        },
        Method::Unknown => Ok(unknown_method_response(id, request.method.as_str())),
    }
}

/// The answer that is sent for the outcome of a request: the answer itself,
/// or the answer to a request that could not be handled.
pub fn response_of(outcome: Result<ServerResponse, RequestError>) -> (r: ServerResponse)
    ensures
        match outcome {
            Ok(resp) => r == resp,
            Err(e) => r.id == 0 && r.result is None && r.error is Some && r.error->0@
                == "Internal error: "@ + error_text(e),
        },
{
    match outcome {
        Ok(resp) => resp,
        Err(e) => failure_response(e),
    }
}

} // verus!
