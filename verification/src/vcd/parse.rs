//! Reading the text of a trace, which is left to the `vcd` crate.

use vstd::prelude::*;
use crate::vcd::record::{outcome_view, Document, DocumentView, Record};
use crate::vcd::scope::{HeaderItem, Scope, ScopeKind, Var, VarKind};
use crate::vcd::value::Logic;

verus! {

/// `vcd::Value`, a logic value as the parser hands it out. Nothing inside it
/// is visible to the proofs.
#[verifier::external_type_specification]
#[verifier::external_body]
pub struct ExValue(::vcd::Value);

/// `vcd::ScopeType`, the kind of a scope as the parser hands it out. Nothing
/// inside it is visible to the proofs.
#[verifier::external_type_specification]
#[verifier::external_body]
pub struct ExScopeType(::vcd::ScopeType);

/// `vcd::VarType`, the type of a variable as the parser hands it out. Nothing
/// inside it is visible to the proofs.
#[verifier::external_type_specification]
#[verifier::external_body]
pub struct ExVarType(::vcd::VarType);

/// `vcd::ScopeItem`, an item of the header as the parser hands it out.
/// Nothing inside it is visible to the proofs.
#[verifier::external_type_specification]
#[verifier::external_body]
pub struct ExScopeItem(::vcd::ScopeItem);

/// `vcd::Command`, a record as the parser hands it out. Nothing inside it is
/// visible to the proofs.
#[verifier::external_type_specification]
#[verifier::external_body]
pub struct ExCommand(::vcd::Command);

/// What the `vcd` crate's parser makes of the text of a trace: the document
/// where the header can be read, and its message where it cannot.
pub uninterp spec fn parsed_document(bytes: Seq<u8>) -> Result<DocumentView, Seq<char>>;

/// Turns a logic value of the `vcd` crate, `vcd::Value`, into this library's,
/// variant for variant. Nothing is claimed of the result.
#[verifier::external_body]
fn convert_value(value: ::vcd::Value) -> Logic {
    match value {
        ::vcd::Value::V0 => Logic::V0,
        ::vcd::Value::V1 => Logic::V1,
        ::vcd::Value::X => Logic::X,
        ::vcd::Value::Z => Logic::Z,
    }
}

/// Turns a scope kind of the `vcd` crate, `vcd::ScopeType`, into this
/// library's, variant for variant. Nothing is claimed of the result.
#[verifier::external_body]
fn convert_scope_type(scope_type: ::vcd::ScopeType) -> ScopeKind {
    match scope_type {
        ::vcd::ScopeType::Module => ScopeKind::Module,
        ::vcd::ScopeType::Task => ScopeKind::Task,
        ::vcd::ScopeType::Function => ScopeKind::Function,
        ::vcd::ScopeType::Begin => ScopeKind::Begin,
        ::vcd::ScopeType::Fork => ScopeKind::Fork,
        _ => ScopeKind::Other,
    }
}

/// Turns a variable type of the `vcd` crate, `vcd::VarType`, into this
/// library's: registers and wires as they are, every other type as `Other`.
/// Nothing is claimed of the result.
#[verifier::external_body]
fn convert_var_type(var_type: ::vcd::VarType) -> VarKind {
    match var_type {
        ::vcd::VarType::Reg => VarKind::Reg,
        ::vcd::VarType::Wire => VarKind::Wire,
        _ => VarKind::Other,
    }
}

/// Turns a header item of the `vcd` crate, `vcd::ScopeItem`, into this
/// library's, field for field and through all scopes; an identifier code
/// becomes the text it has in the trace. Nothing is claimed of the result.
#[verifier::external_body]
fn convert_item(item: &::vcd::ScopeItem) -> HeaderItem {
    match item {
        ::vcd::ScopeItem::Scope(scope) => HeaderItem::Scope(Scope {
            scope_type: convert_scope_type(scope.scope_type),
            identifier: scope.identifier.clone(),
            items: scope.items.iter().map(convert_item).collect(),
        }),
        ::vcd::ScopeItem::Var(var) => HeaderItem::Var(Var {
            var_type: convert_var_type(var.var_type),
            size: var.size,
            code: var.code.to_string(),
            reference: var.reference.clone(),
        }),
        ::vcd::ScopeItem::Comment(text) => HeaderItem::Comment(text.clone()),
        _ => HeaderItem::Other,
    }
}

/// Turns a record of the `vcd` crate, `vcd::Command`, into this library's:
/// timestamps and the changes of scalars, vectors and strings field for
/// field, every other record as `Other`. Nothing is claimed of the result.
#[verifier::external_body]
fn convert_command(command: ::vcd::Command) -> Record {
    match command {
        ::vcd::Command::Timestamp(time) => Record::Timestamp(time),
        ::vcd::Command::ChangeScalar(code, value) => Record::ChangeScalar(
            code.to_string(),
            convert_value(value),
        ),
        ::vcd::Command::ChangeVector(code, values) => Record::ChangeVector(
            code.to_string(),
            values.iter().map(convert_value).collect(),
        ),
        ::vcd::Command::ChangeString(code, text) => Record::ChangeString(code.to_string(), text),
        _ => Record::Other,
    }
}

/// Runs the `vcd` crate's parser, `vcd::Parser`, over the text of a trace:
/// `parse_header` for the header, then the parser as an iterator for every
/// record up to the end of the text. A header that cannot be read gives its
/// message. The claim is that the outcome depends on the text alone.
#[verifier::external_body]
pub(crate) fn parse_document(bytes: &[u8]) -> (outcome: Result<Document, String>)
    ensures
        outcome_view(outcome) == parsed_document(bytes@),
{
    let mut parser = ::vcd::Parser::new(bytes);
    match parser.parse_header() {
        Ok(header) => Ok(Document {
            items: header.items.iter().map(convert_item).collect(),
            records: parser.map(|r| r.map(convert_command).map_err(|e| e.to_string())).collect(),
        }),
        Err(error) => Err(error.to_string()),
    }
}

} // verus!
