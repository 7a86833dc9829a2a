use crate::indexer::IndexStats;
use crate::parser::{opt_text, SymbolInfo, SymbolRecord, UsageInfo, UsageRecord};
use vstd::prelude::*;

verus! {

/// The kind of a symbol.
#[derive(Debug, Clone, Copy, PartialEq, Eq, Structural)]
pub enum SymbolType {
    Function,
    Struct,
    Enum,
    Trait,
}

/// What `find_definition` is asked: a name, and a kind where only one kind is meant.
#[derive(Debug, Clone)]
pub struct FindDefinitionParams {
    pub symbol_name: String,
    pub symbol_type: Option<SymbolType>,
}

/// What `find_definition` answers.
#[derive(Debug, Clone)]
pub struct FindDefinitionResponse {
    pub definitions: Vec<SymbolDefinition>,
}

/// One definition of a symbol, as it is sent.
#[derive(Debug, Clone)]
pub struct SymbolDefinition {
    pub name: String,
    pub symbol_type: SymbolType,
    pub file_path: String,
    pub line: usize,
    pub column: usize,
    pub signature: String,
    pub visibility: String,
    pub generics: Option<String>,
}

impl View for SymbolDefinition {
    type V = SymbolRecord;

    open spec fn view(&self) -> SymbolRecord {
        SymbolRecord {
            name: self.name@,
            symbol_type: self.symbol_type,
            file_path: self.file_path@,
            line: self.line as nat,
            column: self.column as nat,
            signature: self.signature@,
            visibility: self.visibility@,
            generics: opt_text(self.generics),
        }
    }
}

/// What the definitions of `v` hold.
pub open spec fn definition_records(v: Seq<SymbolDefinition>) -> Seq<SymbolRecord> {
    v.map_values(|d: SymbolDefinition| d@)
}

/// What `get_stats` answers.
#[derive(Debug, Clone, Copy, PartialEq, Eq, Structural)]
pub struct StatsResponse {
    pub total_symbols: usize,
    pub total_functions: usize,
    pub total_structs: usize,
    pub total_enums: usize,
    pub total_traits: usize,
    pub unique_symbol_names: usize,
    pub indexed_files_count: usize,
}

/// What `change_project` is asked.
#[derive(Debug, Clone)]
pub struct ChangeProjectParams {
    pub project_path: String,
}

/// What `change_project` answers.
#[derive(Debug, Clone)]
pub struct ChangeProjectResponse {
    pub success: bool,
    pub message: String,
    pub stats: Option<StatsResponse>,
}

/// What `find_usages` is asked: a name, and a kind where only one kind is meant.
#[derive(Debug, Clone)]
pub struct FindUsagesParams {
    pub symbol_name: String,
    pub symbol_type: Option<SymbolType>,
}

/// What `find_usages` answers.
#[derive(Debug, Clone)]
pub struct FindUsagesResponse {
    pub usages: Vec<SymbolUsage>,
}

/// How a symbol is used at one place.
#[derive(Debug, Clone, Copy, PartialEq, Eq, Structural)]
pub enum UsageType {
    FunctionCall,
    TypeUsage,
    TraitUsage,
    Import,
    Reference,
}

/// One use of a symbol, as it is sent.
#[derive(Debug, Clone)]
pub struct SymbolUsage {
    pub symbol_name: String,
    pub file_path: String,
    pub line: usize,
    pub column: usize,
    pub usage_type: UsageType,
    pub context: String,
}

/// The kind of use that is sent for a kind of use that was found.
pub open spec fn sent_usage_type(t: crate::parser::UsageType) -> UsageType {
    match t {
        crate::parser::UsageType::FunctionCall => UsageType::FunctionCall,
        crate::parser::UsageType::TypeUsage => UsageType::TypeUsage,
        crate::parser::UsageType::TraitUsage => UsageType::TraitUsage,
        crate::parser::UsageType::Import => UsageType::Import,
        crate::parser::UsageType::Reference => UsageType::Reference,
    }
}

impl View for SymbolUsage {
    type V = UsageRecord;

    open spec fn view(&self) -> UsageRecord {
        UsageRecord {
            symbol_name: self.symbol_name@,
            file_path: self.file_path@,
            line: self.line as nat,
            column: self.column as nat,
            usage_type: match self.usage_type {
                UsageType::FunctionCall => crate::parser::UsageType::FunctionCall,
                UsageType::TypeUsage => crate::parser::UsageType::TypeUsage,
                UsageType::TraitUsage => crate::parser::UsageType::TraitUsage,
                UsageType::Import => crate::parser::UsageType::Import,
                UsageType::Reference => crate::parser::UsageType::Reference,
            },
            context: self.context@,
        }
    }
}

impl From<SymbolInfo> for SymbolDefinition {
    fn from(symbol_info: SymbolInfo) -> (r: Self) {
        SymbolDefinition {
            name: symbol_info.name,
            symbol_type: symbol_info.symbol_type,
            file_path: symbol_info.file_path,
            line: symbol_info.line,
            column: symbol_info.column,
            signature: symbol_info.signature,
            visibility: symbol_info.visibility,
            generics: symbol_info.generics,
        }
    }
}

impl vstd::std_specs::convert::FromSpecImpl<SymbolInfo> for SymbolDefinition {
    open spec fn obeys_from_spec() -> bool {
        true
    }

    open spec fn from_spec(symbol_info: SymbolInfo) -> Self {
        SymbolDefinition {
            name: symbol_info.name,
            symbol_type: symbol_info.symbol_type,
            file_path: symbol_info.file_path,
            line: symbol_info.line,
            column: symbol_info.column,
            signature: symbol_info.signature,
            visibility: symbol_info.visibility,
            generics: symbol_info.generics,
        }
    }
}

impl From<UsageInfo> for SymbolUsage {
    fn from(usage_info: UsageInfo) -> (r: Self) {
        SymbolUsage {
            symbol_name: usage_info.symbol_name,
            file_path: usage_info.file_path,
            line: usage_info.line,
            column: usage_info.column,
            usage_type: match usage_info.usage_type {
                crate::parser::UsageType::FunctionCall => UsageType::FunctionCall,
                crate::parser::UsageType::TypeUsage => UsageType::TypeUsage,
                crate::parser::UsageType::TraitUsage => UsageType::TraitUsage,
                crate::parser::UsageType::Import => UsageType::Import,
                crate::parser::UsageType::Reference => UsageType::Reference,
            },
            context: usage_info.context,
        }
    }
}

impl vstd::std_specs::convert::FromSpecImpl<UsageInfo> for SymbolUsage {
    open spec fn obeys_from_spec() -> bool {
        true
    }

    open spec fn from_spec(usage_info: UsageInfo) -> Self {
        SymbolUsage {
            symbol_name: usage_info.symbol_name,
            file_path: usage_info.file_path,
            line: usage_info.line,
            column: usage_info.column,
            usage_type: sent_usage_type(usage_info.usage_type),
            context: usage_info.context,
        }
    }
}

/// The counts as they are sent.
pub open spec fn stats_response(stats: IndexStats) -> StatsResponse {
    StatsResponse {
        total_symbols: stats.total_symbols,
        total_functions: stats.total_functions,
        total_structs: stats.total_structs,
        total_enums: stats.total_enums,
        total_traits: stats.total_traits,
        unique_symbol_names: stats.unique_symbol_names,
        indexed_files_count: stats.indexed_files_count,
    }
}

impl From<IndexStats> for StatsResponse {
    fn from(stats: IndexStats) -> (r: Self) {
        StatsResponse {
            total_symbols: stats.total_symbols,
            total_functions: stats.total_functions,
            total_structs: stats.total_structs,
            total_enums: stats.total_enums,
            total_traits: stats.total_traits,
            unique_symbol_names: stats.unique_symbol_names,
            indexed_files_count: stats.indexed_files_count,
        }
    }
}

impl vstd::std_specs::convert::FromSpecImpl<IndexStats> for StatsResponse {
    open spec fn obeys_from_spec() -> bool {
        true
    }

    open spec fn from_spec(stats: IndexStats) -> Self {
        stats_response(stats)
    }
}

/// The name of the method that finds definitions.
pub const FIND_DEFINITION: &'static str = "find_definition";

/// The name of the method that finds uses. No request for it is served.
pub const FIND_USAGES: &'static str = "find_usages";

/// The name of the method that lists symbols. No request for it is served.
pub const LIST_SYMBOLS: &'static str = "list_symbols";

/// The name of the method that gives the counts of the index.
pub const GET_STATS: &'static str = "get_stats";

/// The name of the method that tells whether the server lives.
pub const HEALTH_CHECK: &'static str = "health_check";

/// The name of the method that puts another project in place.
pub const CHANGE_PROJECT: &'static str = "change_project";

} // verus!
