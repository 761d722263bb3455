//! The messages of the errors that the parser records.

use vstd::prelude::*;

verus! {

/// A literal of one type stands where another type was declared.
pub open spec fn mismatch_message(expected: Seq<char>, found: Seq<char>) -> Seq<char> {
    "Expected type '"@ + expected + "' but found '"@ + found + "'"@
}

/// A number does not fit the declared type exactly.
pub open spec fn precision_loss_message(expected: Seq<char>) -> Seq<char> {
    "Value cannot be represented as '"@ + expected + "' without loss of precision"@
}

/// A reserved word stands inside an arithmetic expression.
pub open spec fn keyword_message(keyword: Seq<char>) -> Seq<char> {
    "Expected ';' after expression, found keyword '"@ + keyword + "'"@
}

/// Operands and operators do not alternate.
pub open spec fn malformed_expression_message() -> Seq<char> {
    "Malformed expression"@
}

/// A token of the class of numbers does not read as a number.
pub open spec fn invalid_number_message(lexeme: Seq<char>) -> Seq<char> {
    "Invalid numeric literal '"@ + lexeme + "'"@
}

/// A token that is no value stands where a value is expected.
pub open spec fn not_assignable_message(class: Seq<char>) -> Seq<char> {
    "Cannot assign items of type "@ + class + " to variables"@
}

/// A declaration does not end in a semicolon.
pub open spec fn semicolon_message(name: Seq<char>) -> Seq<char> {
    "Expected semicolon following variable '"@ + name + "'"@
}

/// A declaration names no variable.
pub open spec fn variable_name_message(class: Seq<char>) -> Seq<char> {
    "Expected a variable name but found '"@ + class + "'"@
}

/// Neither `:=`, `=` nor a type follows the name of a variable.
pub open spec fn binding_message(name: Seq<char>, class: Seq<char>) -> Seq<char> {
    "Expected ':=', '=' or ':' after variable '"@ + name + "' but found '"@ + class + "'"@
}

/// A type name that names no type.
pub open spec fn unknown_type_message(name: Seq<char>) -> Seq<char> {
    "Unknown type '"@ + name + "'"@
}

/// A tuple type inside a tuple type.
pub open spec fn nested_tuple_message() -> Seq<char> {
    "Tuple types cannot contain tuple types"@
}

/// Neither `,` nor `)` follows an element of a tuple type.
pub open spec fn tuple_separator_message(class: Seq<char>) -> Seq<char> {
    "Expected ',' or ')' in tuple type but found '"@ + class + "'"@
}

/// The input ends inside a declaration.
pub open spec fn declaration_end_message() -> Seq<char> {
    "Unexpected end of input in variable declaration"@
}

/// A variable of that name has been declared before.
pub open spec fn duplicate_message(name: Seq<char>) -> Seq<char> {
    "Variable with name '"@ + name + "' already exists"@
}

/// The name of a function is no identifier.
pub open spec fn function_name_message(class: Seq<char>) -> Seq<char> {
    "Cannot declare function with name of type "@ + class
}

/// The input ends right after `function`.
pub open spec fn function_end_message() -> Seq<char> {
    "Unexpected end of input while parsing function declaration"@
}

/// No `(` follows the name of a function.
pub open spec fn function_paren_message(class: Seq<char>, name: Seq<char>) -> Seq<char> {
    "Expected '(' after function name, found '"@ + class + "' for function '"@ + name + "'"@
}

/// The input ends inside a parameter list.
pub open spec fn parameters_end_message(name: Seq<char>) -> Seq<char> {
    "Unexpected end of tokens while parsing parameters for function '"@ + name + "'"@
}

/// A token that cannot stand in a parameter list.
pub open spec fn parameter_token_message(class: Seq<char>, name: Seq<char>) -> Seq<char> {
    "Unexpected token '"@ + class + "' while parsing parameters for function '"@ + name + "'"@
}

/// No `:` follows the name of a parameter.
pub open spec fn parameter_colon_message(lexeme: Seq<char>, name: Seq<char>) -> Seq<char> {
    "Expected type to follow parameter, but found '"@ + lexeme + "' for function '"@ + name
        + "'"@
}

/// Nothing follows the `:` of a parameter.
pub open spec fn parameter_type_message() -> Seq<char> {
    "Expected parameter type after ':'"@
}

/// Nothing follows the `>` of a return type.
pub open spec fn return_type_message(name: Seq<char>) -> Seq<char> {
    "Expected return type after '>' for function '"@ + name + "'"@
}

/// Neither `>` nor `{` follows a parameter list.
pub open spec fn return_or_body_message(name: Seq<char>, lexeme: Seq<char>) -> Seq<char> {
    "Expected either '>' or '{' when parsing function '"@ + name + "', but found "@ + lexeme
}

/// The input ends where a return type or a body should start.
pub open spec fn return_end_message(name: Seq<char>) -> Seq<char> {
    "Unexpected end of tokens while parsing return type for function '"@ + name + "'"@
}

/// No `{` starts the body of a function.
pub open spec fn body_start_message(class: Seq<char>) -> Seq<char> {
    "Expected '{' to start function body, found '"@ + class + "'"@
}

/// The input ends inside the body of a function.
pub open spec fn body_end_message() -> Seq<char> {
    "Unexpected end of tokens while parsing function body"@
}

/// The path of an import is no string.
pub open spec fn import_path_message(class: Seq<char>) -> Seq<char> {
    "expected string for import path but found '"@ + class + "'"@
}

/// The input ends where more was expected.
pub open spec fn end_of_input_message() -> Seq<char> {
    "unexpected EOF"@
}

/// A token that cannot follow an argument of a call.
pub open spec fn argument_separator_message(class: Seq<char>) -> Seq<char> {
    "Expected ',' or ')' after argument but found '"@ + class + "'"@
}

/// A token that cannot be an argument of a call.
pub open spec fn argument_message(lexeme: Seq<char>) -> Seq<char> {
    "`"@ + lexeme + "` cannot be an argument"@
}

/// No `(` follows the name of a called function.
pub open spec fn call_paren_message(class: Seq<char>) -> Seq<char> {
    "Expected '(' after function name but found '"@ + class + "'"@
}

/// A statement that starts with a token that starts no statement.
pub open spec fn statement_message(class: Seq<char>, lexeme: Seq<char>) -> Seq<char> {
    "incomplete: no statement starts with '"@ + class + "' ("@ + lexeme + ")"@
}

/// An assignment to a variable that exists.
pub open spec fn reassignment_message(name: Seq<char>) -> Seq<char> {
    "Reassignment of '"@ + name + "' is not implemented"@
}

/// An identifier followed by a token that makes no statement of it.
pub open spec fn identifier_message(name: Seq<char>, class: Seq<char>) -> Seq<char> {
    "Statements that start with '"@ + name + "' followed by '"@ + class + "' are not implemented"@
}

} // verus!
