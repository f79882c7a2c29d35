use al_lsp::ast::{extract_symbols, AlObjectKind, AlSymbol, AlSymbolKind};
use al_lsp::diagnostics::extract_diagnostics;
use al_lsp::document::DocumentState;
use al_lsp::formatting::{
    apply_spacing, assign_indentation, format_document, is_braced_section,
    is_field_like_declaration, is_object_declaration, set_line_indent, FormatOptions, LineMarks,
};
use al_lsp::handlers::code_action::{handle_code_action, reindent, CodeAction, CodeActionKind};
use al_lsp::handlers::completion::{extract_prefix, handle_completion, CompletionItemKind};
use al_lsp::handlers::document_highlight::handle_document_highlight;
use al_lsp::handlers::document_symbol::handle_document_symbol;
use al_lsp::handlers::folding_range::handle_folding_range;
use al_lsp::handlers::formatting::handle_formatting;
use al_lsp::handlers::goto_definition::handle_goto_definition;
use al_lsp::handlers::goto_implementation::handle_goto_implementation;
use al_lsp::handlers::goto_type_definition::handle_goto_type_definition;
use al_lsp::handlers::hover::handle_hover;
use al_lsp::handlers::references::handle_references;
use al_lsp::handlers::rename::{
    handle_prepare_rename, handle_rename, make_rename_edit, written,
};
use al_lsp::handlers::signature_help::handle_signature_help;
use al_lsp::handlers::workspace_symbol::handle_workspace_symbol;
use al_lsp::navigation::{
    collect_folding_ranges, extract_type_object_name, find_all_references, find_call_context,
    identifier_at_offset, identifier_context_at_offset, node_at_offset, resolve_at_offset,
    FoldingAreaKind,
};
use al_lsp::protocol::{
    lsp_position_to_ts_point, ts_point_to_lsp_position, ts_range_to_lsp_range, DiagnosticSeverity,
    Location, Position, Range,
};
use al_lsp::rope::lsp_position_to_byte_offset;
use al_lsp::state::{
    is_al_extension, resolve_roots, skip_directory, update_roots, FileEvent, Reload, WorldState,
};
use al_lsp::symbols::{al_keywords, format_hover, DocumentSymbolTable};
use al_lsp::syntax::{extract_name, node_text, Point, SyntaxNode};
use al_lsp::text::{
    has_space, index_lines, space_len_at, take_characters, trim, trim_end, trim_start,
};

// ---------------------------------------------------------------------------
// A small parser for the AL that these tests use. It builds the syntax tree
// that the engine reads: keywords are not nodes of their own, they are
// implied by where their enclosing node starts and ends.
// ---------------------------------------------------------------------------

#[derive(Clone, Copy, PartialEq, Eq, Debug)]
enum TokenKind {
    Word,
    Quoted,
    Number,
    Text,
    Punct,
}

#[derive(Clone, Debug)]
struct Token {
    kind: TokenKind,
    text: String,
    start: usize,
    end: usize,
    start_point: Point,
    end_point: Point,
}

fn point_at(source: &str, offset: usize) -> Point {
    let before = &source.as_bytes()[..offset];
    let row = before.iter().filter(|b| **b == b'\n').count();
    let line_start = before
        .iter()
        .rposition(|b| *b == b'\n')
        .map(|i| i + 1)
        .unwrap_or(0);
    Point {
        row,
        column: offset - line_start,
    }
}

fn tokenize(source: &str) -> Vec<Token> {
    let bytes = source.as_bytes();
    let mut tokens = Vec::new();
    let mut i = 0;
    while i < bytes.len() {
        let b = bytes[i];
        if b.is_ascii_whitespace() {
            i += 1;
            continue;
        }
        let start = i;
        let kind;
        if b.is_ascii_alphabetic() || b == b'_' || b >= 0x80 {
            while i < bytes.len()
                && (bytes[i].is_ascii_alphanumeric() || bytes[i] == b'_' || bytes[i] >= 0x80)
            {
                i += 1;
            }
            kind = TokenKind::Word;
        } else if b.is_ascii_digit() {
            while i < bytes.len() && bytes[i].is_ascii_digit() {
                i += 1;
            }
            kind = TokenKind::Number;
        } else if b == b'"' {
            i += 1;
            while i < bytes.len() && bytes[i] != b'"' {
                i += 1;
            }
            i += 1;
            kind = TokenKind::Quoted;
        } else if b == b'\'' {
            i += 1;
            while i < bytes.len() && bytes[i] != b'\'' {
                i += 1;
            }
            i += 1;
            kind = TokenKind::Text;
        } else {
            let two = if i + 1 < bytes.len() {
                &source[i..i + 2]
            } else {
                ""
            };
            if matches!(two, ":=" | "+=" | "-=" | "*=" | "/=" | "<>" | "<=" | ">=") {
                i += 2;
            } else {
                i += 1;
            }
            kind = TokenKind::Punct;
        }
        let end = i.min(bytes.len());
        tokens.push(Token {
            kind,
            text: source[start..end].to_string(),
            start,
            end,
            start_point: point_at(source, start),
            end_point: point_at(source, end),
        });
    }
    tokens
}

struct Parser {
    tokens: Vec<Token>,
    pos: usize,
    end: usize,
    end_point: Point,
}

fn leaf(kind: &str, named: bool, token: &Token) -> SyntaxNode {
    SyntaxNode {
        kind: kind.as_bytes().to_vec(),
        field: None,
        named,
        error: false,
        missing: false,
        start_byte: token.start,
        end_byte: token.end,
        start_point: token.start_point,
        end_point: token.end_point,
        children: Vec::new(),
    }
}

fn in_field(mut node: SyntaxNode, field: &str) -> SyntaxNode {
    node.field = Some(field.as_bytes().to_vec());
    node
}

impl Parser {
    fn new(source: &str) -> Parser {
        Parser {
            tokens: tokenize(source),
            pos: 0,
            end: source.len(),
            end_point: point_at(source, source.len()),
        }
    }

    fn peek(&self) -> Option<&Token> {
        self.tokens.get(self.pos)
    }

    fn peek_at(&self, ahead: usize) -> Option<&Token> {
        self.tokens.get(self.pos + ahead)
    }

    fn is_word(&self, word: &str) -> bool {
        self.word_at(0, word)
    }

    fn word_at(&self, ahead: usize, word: &str) -> bool {
        match self.peek_at(ahead) {
            Some(t) => t.kind == TokenKind::Word && t.text.eq_ignore_ascii_case(word),
            None => false,
        }
    }

    fn is_punct(&self, text: &str) -> bool {
        self.punct_at(0, text)
    }

    fn punct_at(&self, ahead: usize, text: &str) -> bool {
        match self.peek_at(ahead) {
            Some(t) => t.kind == TokenKind::Punct && t.text == text,
            None => false,
        }
    }

    fn next(&mut self) -> Token {
        let token = self.tokens[self.pos].clone();
        self.pos += 1;
        token
    }

    /// The unnamed node of the punctuation that comes next.
    fn punct(&mut self) -> SyntaxNode {
        let token = self.next();
        leaf(&token.text, false, &token)
    }

    /// Pushes the punctuation `text` if it comes next.
    fn accept(&mut self, text: &str, children: &mut Vec<SyntaxNode>) -> bool {
        if self.is_punct(text) {
            children.push(self.punct());
            true
        } else {
            false
        }
    }

    /// A node that spans from `start` to the end of the last token read.
    fn finish(&self, kind: &str, start: &Token, children: Vec<SyntaxNode>) -> SyntaxNode {
        let last = &self.tokens[self.pos - 1];
        SyntaxNode {
            kind: kind.as_bytes().to_vec(),
            field: None,
            named: true,
            error: false,
            missing: false,
            start_byte: start.start,
            end_byte: last.end,
            start_point: start.start_point,
            end_point: last.end_point,
            children,
        }
    }

    fn is_name(&self) -> bool {
        matches!(
            self.peek().map(|t| t.kind),
            Some(TokenKind::Word) | Some(TokenKind::Quoted)
        )
    }

    /// An identifier; a missing one where no name comes next.
    fn name(&mut self) -> SyntaxNode {
        if self.is_name() {
            let token = self.next();
            let kind = if token.kind == TokenKind::Quoted {
                "quoted_identifier"
            } else {
                "identifier"
            };
            leaf(kind, true, &token)
        } else {
            let (at, point) = match self.peek() {
                Some(t) => (t.start, t.start_point),
                None => (self.end, self.end_point),
            };
            SyntaxNode {
                kind: b"identifier".to_vec(),
                field: None,
                named: true,
                error: false,
                missing: true,
                start_byte: at,
                end_byte: at,
                start_point: point,
                end_point: point,
                children: Vec::new(),
            }
        }
    }

    fn file(&mut self) -> SyntaxNode {
        let mut children = Vec::new();
        while self.peek().is_some() {
            children.push(self.object());
        }
        SyntaxNode {
            kind: b"source_file".to_vec(),
            field: None,
            named: true,
            error: false,
            missing: false,
            start_byte: 0,
            end_byte: self.end,
            start_point: Point { row: 0, column: 0 },
            end_point: self.end_point,
            children,
        }
    }

    fn object(&mut self) -> SyntaxNode {
        let start = self.next();
        let kind = format!("{}_declaration", start.text.to_lowercase());
        let mut children = Vec::new();
        if self.peek().map(|t| t.kind) == Some(TokenKind::Number) {
            let token = self.next();
            children.push(leaf("integer", true, &token));
        }
        children.push(self.name());
        if self.is_word("implements") {
            let clause_start = self.next();
            let mut names = vec![self.name()];
            while self.is_punct(",") {
                names.push(self.punct());
                names.push(self.name());
            }
            children.push(self.finish("implements_clause", &clause_start, names));
        }
        self.accept("{", &mut children);
        while self.peek().is_some() && !self.is_punct("}") {
            children.push(self.member());
        }
        self.accept("}", &mut children);
        self.finish(&kind, &start, children)
    }

    fn member(&mut self) -> SyntaxNode {
        if self.is_word("var") {
            self.var_section()
        } else if self.is_word("procedure")
            || ((self.is_word("local") || self.is_word("internal") || self.is_word("protected"))
                && self.word_at(1, "procedure"))
        {
            self.routine("procedure_declaration")
        } else if self.is_word("trigger") {
            self.routine("trigger_declaration")
        } else if self.is_word("fields") && self.punct_at(1, "{") {
            self.section("fields_section", "field", "field_declaration")
        } else if self.is_word("keys") && self.punct_at(1, "{") {
            self.section("keys_section", "key", "key_declaration")
        } else {
            self.property()
        }
    }

    fn property(&mut self) -> SyntaxNode {
        let start = self.peek().unwrap().clone();
        let mut children = vec![self.name()];
        self.accept("=", &mut children);
        while self.peek().is_some() && !self.is_punct(";") && !self.is_punct("}") {
            children.push(self.expression());
        }
        self.accept(";", &mut children);
        self.finish("property", &start, children)
    }

    /// A type: the tokens up to the `;` or `)` that ends the declaration.
    fn type_reference(&mut self) -> SyntaxNode {
        let start = self.peek().unwrap().clone();
        let mut depth = 0;
        while let Some(t) = self.peek() {
            if t.kind == TokenKind::Punct {
                if t.text == "[" || t.text == "(" {
                    depth += 1;
                } else if t.text == "]" || (t.text == ")" && depth > 0) {
                    depth -= 1;
                } else if depth == 0 && (t.text == ";" || t.text == ")" || t.text == "}") {
                    break;
                }
            }
            if depth == 0
                && t.kind == TokenKind::Word
                && (t.text.eq_ignore_ascii_case("begin") || t.text.eq_ignore_ascii_case("var"))
            {
                break;
            }
            self.pos += 1;
        }
        self.finish("type", &start, Vec::new())
    }

    fn var_section(&mut self) -> SyntaxNode {
        let start = self.next();
        let mut children = Vec::new();
        while self.is_name() && self.punct_at(1, ":") {
            let first = self.peek().unwrap().clone();
            let mut parts = vec![in_field(self.name(), "name")];
            self.accept(":", &mut parts);
            parts.push(in_field(self.type_reference(), "type"));
            self.accept(";", &mut parts);
            children.push(self.finish("variable_declaration", &first, parts));
        }
        self.finish("var_section", &start, children)
    }

    fn routine(&mut self, kind: &str) -> SyntaxNode {
        let start = self.next();
        if !start.text.eq_ignore_ascii_case("procedure") && !start.text.eq_ignore_ascii_case("trigger")
        {
            self.pos += 1;
        }
        let mut children = vec![in_field(self.name(), "name")];
        if self.is_punct("(") {
            let open = self.peek().unwrap().clone();
            let mut parts = vec![self.punct()];
            while self.peek().is_some() && !self.is_punct(")") {
                if self.is_punct(";") {
                    parts.push(self.punct());
                    continue;
                }
                let first = self.peek().unwrap().clone();
                let mut fields = Vec::new();
                if self.is_word("var") && self.peek_at(1).map(|t| t.kind) == Some(TokenKind::Word) {
                    self.pos += 1;
                }
                fields.push(in_field(self.name(), "name"));
                self.accept(":", &mut fields);
                fields.push(in_field(self.type_reference(), "type"));
                parts.push(self.finish("parameter", &first, fields));
            }
            self.accept(")", &mut parts);
            children.push(in_field(
                self.finish("parameter_list", &open, parts),
                "parameters",
            ));
        }
        if self.is_punct(":") {
            let colon = self.next();
            self.type_reference();
            children.push(in_field(
                self.finish("return_type", &colon, Vec::new()),
                "return_type",
            ));
        }
        self.accept(";", &mut children);
        if self.is_word("var") {
            children.push(in_field(self.var_section(), "vars"));
        }
        if self.is_word("begin") {
            children.push(in_field(self.block(), "body"));
            self.accept(";", &mut children);
        }
        self.finish(kind, &start, children)
    }

    fn section(&mut self, kind: &str, keyword: &str, item_kind: &str) -> SyntaxNode {
        let start = self.next();
        let mut children = Vec::new();
        self.accept("{", &mut children);
        while self.is_word(keyword) {
            let first = self.next();
            let mut parts = Vec::new();
            self.accept("(", &mut parts);
            if item_kind == "field_declaration" {
                let number = self.next();
                parts.push(leaf("integer", true, &number));
                self.accept(";", &mut parts);
                parts.push(in_field(self.name(), "name"));
                self.accept(";", &mut parts);
                parts.push(in_field(self.type_reference(), "type"));
            } else {
                parts.push(in_field(self.name(), "name"));
                self.accept(";", &mut parts);
                parts.push(self.name());
                while self.is_punct(",") {
                    parts.push(self.punct());
                    parts.push(self.name());
                }
            }
            self.accept(")", &mut parts);
            if self.accept("{", &mut parts) {
                while self.peek().is_some() && !self.is_punct("}") {
                    parts.push(self.property());
                }
                self.accept("}", &mut parts);
            }
            children.push(self.finish(item_kind, &first, parts));
        }
        self.accept("}", &mut children);
        self.finish(kind, &start, children)
    }

    fn block(&mut self) -> SyntaxNode {
        let start = self.next();
        let mut children = Vec::new();
        while self.peek().is_some() && !self.is_word("end") {
            if self.is_punct(";") {
                children.push(self.punct());
            } else {
                children.push(self.statement());
            }
        }
        if self.is_word("end") {
            self.pos += 1;
        }
        self.finish("block", &start, children)
    }

    fn body(&mut self) -> SyntaxNode {
        if self.is_word("begin") {
            self.block()
        } else {
            self.statement()
        }
    }

    fn statement(&mut self) -> SyntaxNode {
        let start = self.peek().unwrap().clone();
        if self.is_word("if") {
            self.pos += 1;
            let mut children = vec![self.expression()];
            if self.is_word("then") {
                self.pos += 1;
            }
            children.push(self.body());
            if self.is_word("else") {
                self.pos += 1;
                children.push(self.body());
            }
            self.finish("if_statement", &start, children)
        } else if self.is_word("for") {
            self.pos += 1;
            let mut children = vec![self.name()];
            self.accept(":=", &mut children);
            children.push(self.expression());
            if self.is_word("to") || self.is_word("downto") {
                self.pos += 1;
            }
            children.push(self.expression());
            if self.is_word("do") {
                self.pos += 1;
            }
            children.push(self.body());
            self.finish("for_statement", &start, children)
        } else if self.is_word("while") {
            self.pos += 1;
            let mut children = vec![self.expression()];
            if self.is_word("do") {
                self.pos += 1;
            }
            children.push(self.body());
            self.finish("while_statement", &start, children)
        } else if self.is_word("repeat") {
            self.pos += 1;
            let mut children = Vec::new();
            while self.peek().is_some() && !self.is_word("until") {
                if self.is_punct(";") {
                    children.push(self.punct());
                } else {
                    children.push(self.statement());
                }
            }
            if self.is_word("until") {
                self.pos += 1;
            }
            children.push(self.expression());
            self.finish("repeat_statement", &start, children)
        } else if self.is_word("begin") {
            self.block()
        } else {
            let target = self.term();
            let assigns = match self.peek() {
                Some(t) => {
                    t.kind == TokenKind::Punct
                        && matches!(t.text.as_str(), ":=" | "+=" | "-=" | "*=" | "/=")
                }
                None => false,
            };
            if assigns {
                let mut children = vec![in_field(target, "left")];
                children.push(self.punct());
                children.push(in_field(self.expression(), "right"));
                self.finish("assignment_statement", &start, children)
            } else {
                target
            }
        }
    }

    fn arguments(&mut self) -> SyntaxNode {
        let open = self.peek().unwrap().clone();
        let mut parts = vec![self.punct()];
        while self.peek().is_some() && !self.is_punct(")") {
            if self.is_punct(",") {
                parts.push(self.punct());
            } else {
                parts.push(self.expression());
            }
        }
        self.accept(")", &mut parts);
        in_field(self.finish("argument_list", &open, parts), "arguments")
    }

    fn term(&mut self) -> SyntaxNode {
        let start = self.peek().unwrap().clone();
        match start.kind {
            TokenKind::Number => {
                self.pos += 1;
                leaf("integer", true, &start)
            }
            TokenKind::Text => {
                self.pos += 1;
                leaf("string_literal", true, &start)
            }
            TokenKind::Punct => {
                if start.text == "(" {
                    let mut children = vec![self.punct()];
                    children.push(self.expression());
                    self.accept(")", &mut children);
                    self.finish("parenthesized_expression", &start, children)
                } else {
                    self.pos += 1;
                    leaf(&start.text, false, &start)
                }
            }
            TokenKind::Word | TokenKind::Quoted => {
                let name = self.name();
                if self.is_punct("(") {
                    let children = vec![in_field(name, "name"), self.arguments()];
                    self.finish("function_call", &start, children)
                } else if self.is_punct(".") && self.peek_at(1).map(|t| t.kind) == Some(TokenKind::Word)
                {
                    let mut children = vec![in_field(name, "object")];
                    children.push(self.punct());
                    children.push(in_field(self.name(), "method"));
                    if self.is_punct("(") {
                        children.push(self.arguments());
                    }
                    self.finish("method_call", &start, children)
                } else {
                    name
                }
            }
        }
    }

    fn expression(&mut self) -> SyntaxNode {
        let start = self.peek().unwrap().clone();
        let mut left = self.term();
        loop {
            let operator = match self.peek() {
                Some(t) => {
                    (t.kind == TokenKind::Punct
                        && matches!(
                            t.text.as_str(),
                            "+" | "-" | "*" | "/" | "=" | "<" | ">" | "<>" | "<=" | ">="
                        ))
                        || (t.kind == TokenKind::Word
                            && matches!(
                                t.text.to_lowercase().as_str(),
                                "and" | "or" | "xor" | "mod" | "div"
                            ))
                }
                None => false,
            };
            if !operator {
                return left;
            }
            let token = self.next();
            let sign = leaf(&token.text, false, &token);
            let right = self.term();
            left = self.finish("binary_expression", &start, vec![left, sign, right]);
        }
    }
}

/// The syntax tree of a source text.
fn parse(source: &str) -> SyntaxNode {
    Parser::new(source).file()
}

// ---------------------------------------------------------------------------
// Helpers.
// ---------------------------------------------------------------------------

fn document(source: &str) -> DocumentState {
    DocumentState::new(source, Some(parse(source))).unwrap()
}

fn table_of(source: &str) -> DocumentSymbolTable {
    let tree = parse(source);
    DocumentSymbolTable::new(extract_symbols(&tree, source.as_bytes()))
}

fn state_of(documents: &[(&str, &str)]) -> WorldState {
    let mut state = WorldState::new();
    for (uri, source) in documents {
        state.insert(uri.to_string(), document(source));
    }
    state
}

fn position(line: u32, character: u32) -> Position {
    Position { line, character }
}

fn format(source: &str) -> String {
    let tree = parse(source);
    let options = FormatOptions::default();
    String::from_utf8(format_document(&tree, source.as_bytes(), &options)).unwrap()
}

fn text(bytes: &[u8]) -> String {
    String::from_utf8(bytes.to_vec()).unwrap()
}

fn names(symbols: &[&AlSymbol]) -> Vec<String> {
    symbols.iter().map(|s| text(&s.name)).collect()
}

fn lines_of(locations: &[Location]) -> Vec<u32> {
    locations.iter().map(|l| l.range.start.line).collect()
}

fn edits_in<'a>(
    edit: &'a al_lsp::protocol::WorkspaceEdit,
    uri: &str,
) -> Option<&'a Vec<al_lsp::protocol::TextEdit>> {
    edit.changes.iter().find(|c| c.uri == uri).map(|c| &c.edits)
}

fn full_example_source() -> &'static str {
    r#"interface IAddressProvider
{
    procedure GetAddress(): Text;
}

codeunit 50200 CompanyAddressProvider implements IAddressProvider
{
    procedure GetAddress(): Text
    var
        ExampleAddressLbl: Label 'Company address \ Denmark 2800';
    begin
        exit(ExampleAddressLbl);
    end;

    procedure HelloWorld()
    var
        AddressProvider: Interface IAddressProvider;
    begin
        AddressProvider.GetAddress();
    end;
}

codeunit 50201 CompanyAddressProvider2 implements IAddressProvider
{
    procedure GetAddress(): Text
    var
        ExampleAddressLbl: Label 'Company address \ Denmark 2800';
    begin
        exit(ExampleAddressLbl);
    end;

    procedure HelloWorld()
    var
        IAddressProvider: Interface IAddressProvider;
    begin
        IAddressProvider.GetAddress();
    end;
}"#
}

fn codeunit_call_source() -> &'static str {
    r#"interface IAddressProvider
{
    procedure GetAddress(): Text
}

codeunit 50200 CompanyAddressProvider implements IAddressProvider
{
    procedure GetAddress(): Text
    var
        ExampleAddressLbl: Label 'Company address \ Denmark 2800';
    begin
        exit(ExampleAddressLbl);
    end;

    procedure HelloWorld()
    var
        AddressProvider: Interface IAddressProvider;
        CompanyAddressProvider2: codeunit CompanyAddressProvider2;
    begin
        AddressProvider.GetAddress();
        CompanyAddressProvider2.HelloWorld2();
        GetAddress();
    end;
}

codeunit 50201 CompanyAddressProvider2 implements IAddressProvider
{
    procedure GetAddress(): Text
    var
        ExampleAddressLbl: Label 'Company address \ Denmark 2800';
    begin
        exit(ExampleAddressLbl);
    end;

    procedure HelloWorld2()
    var
        Counter: Integer;
        IAddressProvider: Interface IAddressProvider;
    begin
        IAddressProvider.GetAddress();
        repeat
            Counter += 1;
        until Counter = 0;
    end;
}"#
}

const IFACE: &str = r#"interface IAddressProvider
{
    procedure GetAddress(): Text;
}"#;

const IMPL: &str = r#"codeunit 50200 CompanyAddressProvider implements IAddressProvider
{
    procedure GetAddress(): Text
    begin
    end;
}"#;

// ---------------------------------------------------------------------------
// Code actions.
// ---------------------------------------------------------------------------

fn range(start: (u32, u32), end: (u32, u32)) -> Range {
    Range {
        start: position(start.0, start.1),
        end: position(end.0, end.1),
    }
}

#[test]
fn test_toggle_visibility_add_local() {
    let source = r#"codeunit 50100 Test
{
    procedure DoWork()
    begin
    end;
}"#;
    let uri = "file:///test/test.al".to_string();
    let state = state_of(&[(&uri, source)]);

    // Cursor on the procedure (line 2, col 14)
    let result = handle_code_action(&state, &uri, range((2, 14), (2, 14)));

    assert!(result.is_some(), "expected code actions");
    let actions = result.unwrap();
    let toggle = actions.iter().find(|a| text(&a.title).contains("local"));
    assert!(toggle.is_some(), "expected 'Add local modifier' action");

    let ca = toggle.unwrap();
    let edits = edits_in(&ca.edit, &uri).unwrap();
    assert_eq!(edits.len(), 1);
    assert_eq!(edits[0].new_text, b"local ");
    assert_eq!(text(&ca.title), "Add 'local' modifier");
    assert_eq!(ca.kind, CodeActionKind::Refactor);
    assert_eq!(edits[0].range, range((2, 4), (2, 4)));
}

#[test]
fn test_toggle_visibility_remove_local() {
    let source = r#"codeunit 50100 Test
{
    local procedure DoWork()
    begin
    end;
}"#;
    let uri = "file:///test/test.al".to_string();
    let state = state_of(&[(&uri, source)]);

    // Cursor on the procedure name (line 2, col 20)
    let result = handle_code_action(&state, &uri, range((2, 20), (2, 20)));

    assert!(result.is_some(), "expected code actions");
    let actions = result.unwrap();
    let toggle = actions.iter().find(|a| text(&a.title).contains("Remove"));
    assert!(
        toggle.is_some(),
        "expected 'Remove local modifier' action, got: {:?}",
        actions.iter().map(|a| text(&a.title)).collect::<Vec<_>>()
    );

    let ca = toggle.unwrap();
    let edits = edits_in(&ca.edit, &uri).unwrap();
    assert_eq!(edits.len(), 1);
    // Should remove "local " (including trailing space)
    assert_eq!(edits[0].new_text, b"");
    assert_eq!(text(&ca.title), "Remove 'local' modifier");
    assert_eq!(edits[0].range, range((2, 4), (2, 10)));
}

#[test]
fn test_toggle_visibility_remove_internal() {
    let source = r#"codeunit 50100 Test
{
    internal procedure DoWork()
    begin
    end;
}"#;
    let uri = "file:///test/test.al".to_string();
    let state = state_of(&[(&uri, source)]);

    let result = handle_code_action(&state, &uri, range((2, 24), (2, 24)));

    assert!(result.is_some(), "expected code actions");
    let actions = result.unwrap();
    let toggle = actions.iter().find(|a| text(&a.title).contains("internal"));
    assert!(toggle.is_some(), "expected 'Remove internal modifier' action");
}

#[test]
fn test_no_toggle_outside_procedure() {
    let source = r#"codeunit 50100 Test
{
    var
        X: Integer;
}"#;
    let uri = "file:///test/test.al".to_string();
    let state = state_of(&[(&uri, source)]);

    // Cursor on the variable (line 3, col 8)
    let result = handle_code_action(&state, &uri, range((3, 8), (3, 8)));

    // Should not have a toggle visibility action
    if let Some(actions) = result {
        let has_toggle = actions
            .iter()
            .any(|a| text(&a.title).contains("local") || text(&a.title).contains("Remove"));
        assert!(
            !has_toggle,
            "should not offer toggle visibility outside a procedure"
        );
    }
}

const EXTRACT: &str = r#"codeunit 50100 Test
{
    procedure DoWork()
    var
        X: Integer;
        Y: Integer;
    begin
        X := 1;
        Y := X + 1;
    end;
}"#;

fn extract_action(actions: &[CodeAction]) -> Option<&CodeAction> {
    actions.iter().find(|a| text(&a.title) == "Extract procedure")
}

#[test]
fn test_extract_procedure() {
    let uri = "file:///test/test.al".to_string();
    let state = state_of(&[(&uri, EXTRACT)]);

    // Select "X := 1;\n        Y := X + 1;" (lines 7-8)
    let result = handle_code_action(&state, &uri, range((7, 8), (8, 19)));

    assert!(result.is_some(), "expected code actions for selection");
    let actions = result.unwrap();
    let extract = extract_action(&actions);
    assert!(
        extract.is_some(),
        "expected 'Extract procedure' action, got: {:?}",
        actions.iter().map(|a| text(&a.title)).collect::<Vec<_>>()
    );

    let ca = extract.unwrap();
    let edits = edits_in(&ca.edit, &uri).unwrap();
    assert_eq!(edits.len(), 2, "expected 2 edits (replace + insert)");

    // First edit replaces the selected statements with a call
    assert!(text(&edits[0].new_text).contains("ExtractedProcedure("));

    // Second edit inserts the new procedure
    assert!(text(&edits[1].new_text).contains("local procedure ExtractedProcedure"));
    assert!(text(&edits[1].new_text).contains("begin"));
    assert!(text(&edits[1].new_text).contains("end;"));
}

#[test]
fn extract_procedure_writes_call_and_procedure() {
    let uri = "file:///test/test.al".to_string();
    let state = state_of(&[(&uri, EXTRACT)]);
    let actions = handle_code_action(&state, &uri, range((7, 8), (8, 19))).unwrap();
    let ca = extract_action(&actions).unwrap();
    assert_eq!(ca.kind, CodeActionKind::RefactorExtract);
    let edits = edits_in(&ca.edit, &uri).unwrap();
    assert_eq!(text(&edits[0].new_text), "ExtractedProcedure(X, Y);");
    assert_eq!(edits[0].range, range((7, 8), (8, 18)));
    assert_eq!(
        text(&edits[1].new_text),
        "\n\n    local procedure ExtractedProcedure(var X: Integer; var Y: Integer)\n    begin\nX := 1;\n        Y := X + 1\n    end;"
    );
    assert_eq!(edits[1].range, range((9, 8), (9, 8)));
}

#[test]
fn extract_procedure_needs_a_selection_of_statements() {
    let uri = "file:///test/test.al".to_string();
    let state = state_of(&[(&uri, EXTRACT)]);
    // An empty selection offers the toggle only.
    let actions = handle_code_action(&state, &uri, range((7, 8), (7, 8))).unwrap();
    assert!(extract_action(&actions).is_none());
    // A selection that holds no whole statement offers no extraction.
    let actions = handle_code_action(&state, &uri, range((7, 8), (7, 10))).unwrap();
    assert!(extract_action(&actions).is_none());
    // An unknown document has no actions.
    assert!(handle_code_action(&state, &"file:///none.al".to_string(), range((7, 8), (8, 19))).is_none());
}

#[test]
fn reindent_replaces_the_indent_of_each_line() {
    assert_eq!(
        text(&reindent(b"  a\n  b\nc", b"  ", b"    ")),
        "    a\n    b\nc"
    );
    assert_eq!(text(&reindent(b"", b" ", b"  ")), "");
    assert_eq!(text(&reindent(b"x\r\ny\n", b"", b"\t")), "\tx\n\ty");
}

// ---------------------------------------------------------------------------
// Go to definition.
// ---------------------------------------------------------------------------

#[test]
fn test_goto_definition_impl_procedure_to_interface_method_cross_doc() {
    let iface_uri = "file:///test/iface.al".to_string();
    let impl_uri = "file:///test/impl.al".to_string();
    let state = state_of(&[(&iface_uri, IFACE), (&impl_uri, IMPL)]);

    // Cursor on "GetAddress" in the codeunit (line 2, col 14)
    let result = handle_goto_definition(&state, &impl_uri, position(2, 14));

    assert!(
        result.is_some(),
        "expected goto-definition to return a result"
    );
    let locs = result.unwrap();
    assert!(
        locs.iter().any(|l| l.uri == iface_uri),
        "expected navigation to the interface document, got: {locs:?}"
    );
    assert_eq!(locs.len(), 1);
    assert_eq!(locs[0].range, range((2, 4), (2, 33)));
}

#[test]
fn test_goto_definition_impl_procedure_to_interface_method_same_doc() {
    let source = r#"interface IAddressProvider
{
    procedure GetAddress(): Text;
}

codeunit 50200 CompanyAddressProvider implements IAddressProvider
{
    procedure GetAddress(): Text
    begin
    end;
}"#;
    let uri = "file:///test/all.al".to_string();
    let state = state_of(&[(&uri, source)]);

    // Cursor on "GetAddress" in the codeunit (line 7, col 14)
    let result = handle_goto_definition(&state, &uri, position(7, 14));

    assert!(
        result.is_some(),
        "expected goto-definition to return a result"
    );
    let locs = result.unwrap();
    // Should navigate to the interface method on line 2
    assert!(
        locs.iter().any(|l| l.range.start.line == 2),
        "expected navigation to the interface method on line 2, got: {locs:?}"
    );
}

#[test]
fn test_goto_definition_non_interface_procedure_unchanged() {
    let source = r#"codeunit 50100 Test
{
    procedure Hello()
    begin
    end;

    procedure World()
    begin
        Hello();
    end;
}"#;
    let uri = "file:///test/test.al".to_string();
    let state = state_of(&[(&uri, source)]);

    // Cursor on "Hello" in the call Hello() (line 8, col 8)
    let result = handle_goto_definition(&state, &uri, position(8, 8));

    assert!(
        result.is_some(),
        "expected goto-definition to resolve Hello"
    );
    let locs = result.unwrap();
    // Should navigate to the Hello procedure declaration (line 2)
    assert!(
        locs.iter().any(|l| l.range.start.line == 2),
        "expected navigation to Hello declaration on line 2, got: {locs:?}"
    );
}

#[test]
fn goto_definition_does_not_lead_to_itself() {
    let source = r#"codeunit 50100 Test
{
    procedure Hello()
    var
        MyVar: Integer;
    begin
        MyVar := 1;
    end;
}"#;
    let uri = "file:///test/test.al".to_string();
    let state = state_of(&[(&uri, source)]);
    // On the name of the declaration of MyVar there is nowhere to go.
    assert!(handle_goto_definition(&state, &uri, position(4, 8)).is_none());
    // From the use it leads to the declaration.
    let locs = handle_goto_definition(&state, &uri, position(6, 8)).unwrap();
    assert_eq!(lines_of(&locs), vec![4]);
    // Outside the document, and in an unknown document, there is nothing.
    assert!(handle_goto_definition(&state, &uri, position(40, 0)).is_none());
    assert!(handle_goto_definition(&state, &"file:///none.al".to_string(), position(6, 8)).is_none());
}

// ---------------------------------------------------------------------------
// Go to implementation.
// ---------------------------------------------------------------------------

#[test]
fn test_goto_implementation_interface_to_impl_cross_doc() {
    let iface_uri = "file:///test/iface.al".to_string();
    let impl_uri = "file:///test/impl.al".to_string();
    let state = state_of(&[(&iface_uri, IFACE), (&impl_uri, IMPL)]);

    // Cursor on "GetAddress" in the interface (line 2, col 14)
    let result = handle_goto_implementation(&state, &iface_uri, position(2, 14));

    assert!(
        result.is_some(),
        "expected go-to-implementation to return a result"
    );
    let locs = result.unwrap();
    assert!(
        locs.iter().any(|l| l.uri == impl_uri),
        "expected a location in the impl document, got: {locs:?}"
    );
}

#[test]
fn test_goto_implementation_multiple_impls() {
    let impl1_source = r#"codeunit 50200 CompanyAddressProvider implements IAddressProvider
{
    procedure GetAddress(): Text
    begin
    end;
}"#;
    let impl2_source = r#"codeunit 50201 PersonAddressProvider implements IAddressProvider
{
    procedure GetAddress(): Text
    begin
    end;
}"#;
    let iface_uri = "file:///test/iface.al".to_string();
    let impl1_uri = "file:///test/impl1.al".to_string();
    let impl2_uri = "file:///test/impl2.al".to_string();
    let state = state_of(&[
        (&iface_uri, IFACE),
        (&impl1_uri, impl1_source),
        (&impl2_uri, impl2_source),
    ]);

    let result = handle_goto_implementation(&state, &iface_uri, position(2, 14));

    assert!(
        result.is_some(),
        "expected go-to-implementation to return results"
    );
    let locs = result.unwrap();
    assert_eq!(
        locs.len(),
        2,
        "expected 2 implementation locations, got: {locs:?}"
    );
    assert!(locs.iter().any(|l| l.uri == impl1_uri));
    assert!(locs.iter().any(|l| l.uri == impl2_uri));
}

#[test]
fn test_goto_implementation_not_on_interface_returns_none() {
    let source = r#"codeunit 50100 Test
{
    procedure Hello()
    begin
    end;
}"#;
    let uri = "file:///test/test.al".to_string();
    let state = state_of(&[(&uri, source)]);

    let result = handle_goto_implementation(&state, &uri, position(2, 14));

    assert!(
        result.is_none(),
        "expected None for non-interface procedure"
    );
}

// ---------------------------------------------------------------------------
// References.
// ---------------------------------------------------------------------------

#[test]
fn test_references_impl_procedure_includes_interface_method() {
    let iface_uri = "file:///test/iface.al".to_string();
    let impl_uri = "file:///test/impl.al".to_string();
    let state = state_of(&[(&iface_uri, IFACE), (&impl_uri, IMPL)]);

    // Cursor on "GetAddress" in the codeunit (line 2, col 14), include declaration
    let result = handle_references(&state, &impl_uri, position(2, 14), true);

    assert!(result.is_some(), "expected references to return results");
    let locs = result.unwrap();

    // Should include the interface method as a reference
    assert!(
        locs.iter().any(|l| l.uri == iface_uri),
        "expected a reference in the interface document, got: {locs:?}"
    );
}

#[test]
fn test_references_interface_method_finds_call_sites() {
    let uri = "file:///test/all.al".to_string();
    let state = state_of(&[(&uri, full_example_source())]);

    // Cursor on "GetAddress" in the interface (line 2, col 14), include declaration
    let result = handle_references(&state, &uri, position(2, 14), true);

    assert!(result.is_some(), "expected references to return results");
    let locs = result.unwrap();

    let call_site_lines = lines_of(&locs);
    println!("interface method reference lines: {call_site_lines:?}");

    // The two calls: AddressProvider.GetAddress() and IAddressProvider.GetAddress()
    assert!(
        call_site_lines.contains(&18),
        "expected call site on line 18, got: {call_site_lines:?}"
    );
    assert!(
        call_site_lines.contains(&35),
        "expected call site on line 35, got: {call_site_lines:?}"
    );
}

#[test]
fn test_references_interface_method_cross_doc() {
    let impl_source = r#"codeunit 50200 CompanyAddressProvider implements IAddressProvider
{
    procedure GetAddress(): Text
    begin
    end;

    procedure HelloWorld()
    var
        AddressProvider: Interface IAddressProvider;
    begin
        AddressProvider.GetAddress();
    end;
}"#;
    let iface_uri = "file:///test/iface.al".to_string();
    let impl_uri = "file:///test/impl.al".to_string();
    let state = state_of(&[(&iface_uri, IFACE), (&impl_uri, impl_source)]);

    // Cursor on "GetAddress" in the interface (line 2, col 14)
    let result = handle_references(&state, &iface_uri, position(2, 14), true);

    assert!(result.is_some(), "expected references to return results");
    let locs = result.unwrap();

    // Should find the call site in the impl document
    assert!(
        locs.iter().any(|l| l.uri == impl_uri),
        "expected a call-site reference in the impl document, got: {locs:?}"
    );
}

#[test]
fn test_references_variable_in_impl_codeunit_no_interface_leak() {
    let uri = "file:///test/all.al".to_string();
    let state = state_of(&[(&uri, full_example_source())]);

    // Cursor on "ExampleAddressLbl" in the var declaration (line 9, col 8)
    let result = handle_references(&state, &uri, position(9, 8), true);

    assert!(
        result.is_some(),
        "expected references for ExampleAddressLbl"
    );
    let locs = result.unwrap();
    let lines = lines_of(&locs);
    println!("ExampleAddressLbl reference lines: {lines:?}");

    // Should only contain the declaration (line 9) and usage (line 11)
    // Should NOT contain the interface method line (line 2)
    assert!(
        !lines.contains(&2),
        "ExampleAddressLbl references should NOT include the interface method, got: {lines:?}"
    );
    assert_eq!(lines, vec![9, 11]);
}

#[test]
fn test_references_impl_getaddress_no_interface_call_sites() {
    let uri = "file:///test/all.al".to_string();
    let state = state_of(&[(&uri, full_example_source())]);

    // Cursor on "GetAddress" in the first codeunit's procedure (line 7, col 14)
    let result = handle_references(&state, &uri, position(7, 14), true);

    assert!(result.is_some(), "expected references for impl GetAddress");
    let locs = result.unwrap();
    let lines = lines_of(&locs);
    println!("impl GetAddress reference lines: {lines:?}");

    // Should include the interface method (line 2)
    assert!(
        lines.contains(&2),
        "expected interface method (line 2) in references, got: {lines:?}"
    );

    // Should NOT include AddressProvider.GetAddress() call site (line 18)
    assert!(
        !lines.contains(&18),
        "impl GetAddress references should NOT include interface call site (line 18), got: {lines:?}"
    );
    assert!(!lines.contains(&35));
}

#[test]
fn test_references_on_interface_method_call_resolves_to_interface() {
    let uri = "file:///test/all.al".to_string();
    let state = state_of(&[(&uri, full_example_source())]);

    // Cursor on "GetAddress" in `IAddressProvider.GetAddress()` (line 35, col 25)
    let result = handle_references(&state, &uri, position(35, 25), true);

    assert!(
        result.is_some(),
        "expected references for GetAddress on interface call"
    );
    let locs = result.unwrap();
    let lines = lines_of(&locs);
    println!("interface method call reference lines: {lines:?}");

    // Should include the interface method definition (line 2)
    assert!(
        lines.contains(&2),
        "expected interface method definition (line 2), got: {lines:?}"
    );

    // Should include both interface call sites (lines 18 and 35)
    assert!(
        lines.contains(&18),
        "expected call site on line 18, got: {lines:?}"
    );
    assert!(
        lines.contains(&35),
        "expected call site on line 35, got: {lines:?}"
    );

    // Should NOT include the implementation procedure declarations (lines 7 and 24)
    assert!(
        !lines.contains(&7),
        "should NOT include impl procedure on line 7, got: {lines:?}"
    );
    assert!(
        !lines.contains(&24),
        "should NOT include impl procedure on line 24, got: {lines:?}"
    );
}

#[test]
fn test_references_codeunit_method_call() {
    let uri = "file:///test/all.al".to_string();
    let state = state_of(&[(&uri, codeunit_call_source())]);

    // Cursor on "HelloWorld2" in the procedure declaration (line 34)
    let result = handle_references(&state, &uri, position(34, 14), true);

    assert!(
        result.is_some(),
        "expected references for HelloWorld2 procedure"
    );
    let locs = result.unwrap();
    let lines = lines_of(&locs);
    println!("HelloWorld2 reference lines: {lines:?}");

    // Should include the call site: CompanyAddressProvider2.HelloWorld2() (line 20)
    assert!(
        lines.contains(&20),
        "expected call site on line 20, got: {lines:?}"
    );
}

#[test]
fn test_references_from_codeunit_method_call_site() {
    let uri = "file:///test/all.al".to_string();
    let state = state_of(&[(&uri, codeunit_call_source())]);

    // Cursor on "HelloWorld2" in the call site (line 20)
    let result = handle_references(&state, &uri, position(20, 32), true);

    assert!(
        result.is_some(),
        "expected references from codeunit method call"
    );
    let locs = result.unwrap();
    let lines = lines_of(&locs);
    println!("HelloWorld2 from call site reference lines: {lines:?}");

    // Should include the procedure definition (line 34)
    assert!(
        lines.contains(&34),
        "expected procedure definition on line 34, got: {lines:?}"
    );
}

#[test]
fn references_leave_the_declaration_out_on_request() {
    let uri = "file:///test/all.al".to_string();
    let state = state_of(&[(&uri, full_example_source())]);
    let with = handle_references(&state, &uri, position(35, 25), true).unwrap();
    let without = handle_references(&state, &uri, position(35, 25), false).unwrap();
    assert_eq!(lines_of(&with), vec![2, 18, 35]);
    assert_eq!(lines_of(&without), vec![18, 35]);
    assert!(handle_references(&state, &uri, position(0, 0), true).is_none());
}

// ---------------------------------------------------------------------------
// Rename.
// ---------------------------------------------------------------------------

#[test]
fn test_rename_local_variable() {
    let source = r#"codeunit 50100 Test
{
    procedure DoWork()
    var
        MyVar: Integer;
    begin
        MyVar := 42;
    end;
}"#;
    let uri = "file:///test/test.al".to_string();
    let state = state_of(&[(&uri, source)]);

    // Cursor on MyVar usage (line 6, col 8)
    let result = handle_rename(&state, &uri, position(6, 8), b"NewVar");

    assert!(result.is_some());
    let edit = result.unwrap();
    let edits = edits_in(&edit, &uri).unwrap();
    // Declaration + usage = at least 2
    assert!(edits.len() >= 2, "expected at least 2 edits, got {}", edits.len());
    assert!(edits.iter().all(|e| e.new_text == b"NewVar"));
}

#[test]
fn test_rename_interface_method_from_interface() {
    let impl_source = r#"codeunit 50200 CompanyAddressProvider implements IAddressProvider
{
    procedure GetAddress(): Text
    begin
    end;

    procedure HelloWorld()
    var
        Addr: Interface IAddressProvider;
    begin
        Addr.GetAddress();
    end;
}"#;
    let iface_uri = "file:///test/iface.al".to_string();
    let impl_uri = "file:///test/impl.al".to_string();
    let state = state_of(&[(&iface_uri, IFACE), (&impl_uri, impl_source)]);

    // Rename from interface method definition (line 2, col 14 = "GetAddress")
    let result = handle_rename(&state, &iface_uri, position(2, 14), b"FetchAddress");

    assert!(result.is_some(), "expected rename result");
    let edit = result.unwrap();

    // Should have edits in the interface document
    let iface_edits = edits_in(&edit, &iface_uri);
    assert!(
        iface_edits.is_some(),
        "expected edits in interface document"
    );
    assert!(iface_edits
        .unwrap()
        .iter()
        .all(|e| e.new_text == b"FetchAddress"));

    // Should have edits in the implementation document (procedure name + call site)
    let impl_edits = edits_in(&edit, &impl_uri);
    assert!(
        impl_edits.is_some(),
        "expected edits in implementation document"
    );
    let impl_edit_texts: Vec<String> = impl_edits
        .unwrap()
        .iter()
        .map(|e| text(&e.new_text))
        .collect();
    assert!(
        impl_edit_texts.iter().all(|t| *t == "FetchAddress"),
        "all impl edits should rename to FetchAddress, got: {:?}",
        impl_edit_texts
    );
    // At least the procedure name and the call site
    assert!(
        impl_edits.unwrap().len() >= 2,
        "expected at least 2 edits in impl (proc name + call site), got {}",
        impl_edits.unwrap().len()
    );
}

#[test]
fn test_rename_from_implementation_procedure() {
    let iface_uri = "file:///test/iface.al".to_string();
    let impl_uri = "file:///test/impl.al".to_string();
    let state = state_of(&[(&iface_uri, IFACE), (&impl_uri, IMPL)]);

    // Rename from implementation procedure (line 2, col 14 = "GetAddress")
    let result = handle_rename(&state, &impl_uri, position(2, 14), b"FetchAddress");

    assert!(result.is_some(), "expected rename result");
    let edit = result.unwrap();

    // Should have edits in the interface document
    assert!(
        edits_in(&edit, &iface_uri).is_some(),
        "expected edits in interface document"
    );

    // Should have edits in the implementation document
    assert!(
        edits_in(&edit, &impl_uri).is_some(),
        "expected edits in implementation document"
    );
}

#[test]
fn test_rename_from_method_call() {
    let source = r#"interface IAddressProvider
{
    procedure GetAddress(): Text;
}

codeunit 50200 CompanyAddressProvider implements IAddressProvider
{
    procedure GetAddress(): Text
    begin
    end;

    procedure HelloWorld()
    var
        AddressProvider: Interface IAddressProvider;
    begin
        AddressProvider.GetAddress();
    end;
}"#;
    let uri = "file:///test/all.al".to_string();
    let state = state_of(&[(&uri, source)]);

    // Cursor on GetAddress in `AddressProvider.GetAddress()` (line 15)
    let result = handle_rename(&state, &uri, position(15, 24), b"FetchAddress");

    assert!(result.is_some(), "expected rename result");
    let edit = result.unwrap();
    let edits = edits_in(&edit, &uri).unwrap();

    // Should rename: interface method def, impl procedure name, call site = 3 edits
    assert!(
        edits.len() >= 3,
        "expected at least 3 edits (iface def + impl name + call site), got {}",
        edits.len()
    );
    assert!(edits.iter().all(|e| e.new_text == b"FetchAddress"));
    let starts: Vec<(u32, u32)> = edits
        .iter()
        .map(|e| (e.range.start.line, e.range.start.character))
        .collect();
    assert_eq!(starts, vec![(2, 14), (7, 14), (15, 24)]);
}

#[test]
fn test_rename_variable_no_cross_doc_leak() {
    let source = r#"codeunit 50200 CompanyAddressProvider implements IAddressProvider
{
    procedure GetAddress(): Text
    var
        ExampleAddr: Text;
    begin
        exit(ExampleAddr);
    end;
}"#;
    let uri = "file:///test/impl.al".to_string();
    let state = state_of(&[(&uri, source)]);

    // Rename ExampleAddr (line 4, col 8)
    let result = handle_rename(&state, &uri, position(4, 8), b"AddressText");

    assert!(result.is_some());
    let edit = result.unwrap();
    // Only edits in the same document
    assert_eq!(edit.changes.len(), 1);
    assert!(edits_in(&edit, &uri).is_some());
}

#[test]
fn rename_is_refused_for_triggers_and_objects() {
    let source = r#"codeunit 50100 Test
{
    trigger OnRun()
    begin
    end;
}"#;
    let uri = "file:///test/test.al".to_string();
    let state = state_of(&[(&uri, source)]);
    assert!(handle_prepare_rename(&state, &uri, position(2, 12)).is_none());
    assert!(handle_rename(&state, &uri, position(2, 12), b"OnStart").is_none());
    assert!(handle_prepare_rename(&state, &uri, position(0, 16)).is_none());
    assert!(handle_rename(&state, &uri, position(0, 16), b"Other").is_none());
    // Off every identifier there is nothing to rename.
    assert!(handle_prepare_rename(&state, &uri, position(3, 6)).is_none());
}

#[test]
fn prepare_rename_gives_the_range_of_the_identifier() {
    let uri = "file:///test/all.al".to_string();
    let state = state_of(&[(&uri, full_example_source())]);
    assert_eq!(
        handle_prepare_rename(&state, &uri, position(9, 10)),
        Some(range((9, 8), (9, 25)))
    );
    assert_eq!(
        handle_prepare_rename(&state, &uri, position(35, 27)),
        Some(range((35, 25), (35, 35)))
    );
}

#[test]
fn rename_quotes_names_with_white_space() {
    let edit = make_rename_edit(
        Point { row: 1, column: 2 },
        Point { row: 1, column: 5 },
        b"My Name",
    );
    assert_eq!(edit.new_text, b"\"My Name\"");
    assert_eq!(edit.range, range((1, 2), (1, 5)));
    let edit = make_rename_edit(
        Point { row: 1, column: 2 },
        Point { row: 1, column: 5 },
        b"MyName",
    );
    assert_eq!(edit.new_text, b"MyName");
}

#[test]
fn rename_of_an_implementation_leaves_other_implementations() {
    let uri = "file:///test/all.al".to_string();
    let state = state_of(&[(&uri, full_example_source())]);
    // Cursor on GetAddress of the first codeunit.
    let edit = handle_rename(&state, &uri, position(7, 14), b"FetchAddress").unwrap();
    let edits = edits_in(&edit, &uri).unwrap();
    let lines: Vec<u32> = edits.iter().map(|e| e.range.start.line).collect();
    assert_eq!(lines, vec![7, 2]);
}

#[test]
fn rename_of_a_codeunit_procedure_reaches_qualified_calls() {
    let uri = "file:///test/all.al".to_string();
    let state = state_of(&[(&uri, codeunit_call_source())]);
    // Cursor on the call CompanyAddressProvider2.HelloWorld2().
    let edit = handle_rename(&state, &uri, position(20, 32), b"Greet").unwrap();
    let edits = edits_in(&edit, &uri).unwrap();
    let lines: Vec<u32> = edits.iter().map(|e| e.range.start.line).collect();
    assert_eq!(lines, vec![34, 20]);
    assert!(edits.iter().all(|e| e.new_text == b"Greet"));
}

// ---------------------------------------------------------------------------
// Symbol extraction.
// ---------------------------------------------------------------------------

#[test]
fn test_extract_codeunit_symbols() {
    let source = r#"codeunit 50100 "My Codeunit"
{
    var
        GlobalVar: Integer;

    procedure Hello(Name: Text): Text
    var
        Greeting: Text;
    begin
    end;

    trigger OnRun()
    begin
    end;
}"#;
    let tree = parse(source);
    let symbols = extract_symbols(&tree, source.as_bytes());

    assert_eq!(symbols.len(), 1);
    let obj = &symbols[0];
    assert_eq!(obj.name, b"My Codeunit");
    assert!(matches!(obj.kind, AlSymbolKind::Object(AlObjectKind::Codeunit)));

    // GlobalVar, Hello, OnRun
    assert_eq!(obj.children.len(), 3);

    let var = &obj.children[0];
    assert_eq!(var.name, b"GlobalVar");
    assert!(matches!(var.kind, AlSymbolKind::Variable));
    assert_eq!(var.type_info.as_deref(), Some(&b"Integer"[..]));

    let proc = &obj.children[1];
    assert_eq!(proc.name, b"Hello");
    assert!(matches!(proc.kind, AlSymbolKind::Procedure));
    assert_eq!(proc.type_info.as_deref(), Some(&b"Text"[..]));
    // Parameter + local var
    assert_eq!(proc.children.len(), 2);
    assert_eq!(proc.children[0].name, b"Name");
    assert!(matches!(proc.children[0].kind, AlSymbolKind::Parameter));
    assert_eq!(proc.children[1].name, b"Greeting");
    assert!(matches!(proc.children[1].kind, AlSymbolKind::Variable));

    let trigger = &obj.children[2];
    assert_eq!(trigger.name, b"OnRun");
    assert!(matches!(trigger.kind, AlSymbolKind::Trigger));
}

#[test]
fn test_extract_table_symbols() {
    let source = r#"table 50100 "Customer"
{
    fields
    {
        field(1; "No."; Code[20])
        {
        }
        field(2; Name; Text[100])
        {
        }
    }

    keys
    {
        key(PK; "No.")
        {
        }
    }
}"#;
    let tree = parse(source);
    let symbols = extract_symbols(&tree, source.as_bytes());

    assert_eq!(symbols.len(), 1);
    let table = &symbols[0];
    assert_eq!(table.name, b"Customer");

    // 2 fields + 1 key
    assert_eq!(table.children.len(), 3);
    assert_eq!(table.children[0].name, b"No.");
    assert!(matches!(table.children[0].kind, AlSymbolKind::Field));
    assert_eq!(table.children[0].type_info.as_deref(), Some(&b"Code[20]"[..]));
    assert_eq!(table.children[1].name, b"Name");
    assert_eq!(table.children[2].name, b"PK");
    assert!(matches!(table.children[2].kind, AlSymbolKind::Key));
}

#[test]
fn symbols_carry_their_ranges_and_the_ranges_of_their_names() {
    let source = "codeunit 50100 Test\n{\n    procedure Hello()\n    begin\n    end;\n}";
    let tree = parse(source);
    let symbols = extract_symbols(&tree, source.as_bytes());
    let object = &symbols[0];
    assert_eq!((object.start_byte, object.end_byte), (0, source.len()));
    assert_eq!(object.type_info.as_deref(), Some(&b"codeunit"[..]));
    assert_eq!((object.name_start_byte, object.name_end_byte), (15, 19));
    assert_eq!(object.name_start_point, Point { row: 0, column: 15 });
    let procedure = &object.children[0];
    assert_eq!(procedure.start_point, Point { row: 2, column: 4 });
    assert_eq!(procedure.end_point, Point { row: 4, column: 8 });
    assert_eq!(procedure.name_start_point, Point { row: 2, column: 14 });
    assert_eq!(procedure.name_end_point, Point { row: 2, column: 19 });
    assert_eq!(procedure.type_info, None);
    assert!(object.implements.is_empty());
}

fn check_nested(symbol: &AlSymbol) {
    for child in &symbol.children {
        assert!(symbol.start_byte <= child.start_byte && child.end_byte <= symbol.end_byte);
        assert!((child.start_byte, child.end_byte) != (symbol.start_byte, symbol.end_byte));
        check_nested(child);
    }
}

#[test]
fn every_symbol_lies_strictly_inside_the_symbol_it_is_nested_in() {
    for source in [full_example_source(), codeunit_call_source(), EXTRACT] {
        let tree = parse(source);
        for symbol in extract_symbols(&tree, source.as_bytes()) {
            check_nested(&symbol);
        }
    }
}

#[test]
fn object_kinds_follow_from_node_kinds() {
    assert_eq!(
        AlObjectKind::from_node_kind(b"table_declaration"),
        Some(AlObjectKind::Table)
    );
    assert_eq!(
        AlObjectKind::from_node_kind(b"controladdin_declaration"),
        Some(AlObjectKind::ControlAddin)
    );
    assert_eq!(AlObjectKind::from_node_kind(b"procedure_declaration"), None);
    assert_eq!(AlObjectKind::PageExtension.label(), "pageextension");
    assert_eq!(AlObjectKind::Interface.label(), "interface");
    assert_eq!(
        AlSymbolKind::Parameter.lsp_kind(),
        al_lsp::ast::OutlineKind::Variable
    );
    assert_eq!(
        AlSymbolKind::Object(AlObjectKind::Enum).lsp_kind(),
        al_lsp::ast::OutlineKind::Class
    );
}

#[test]
fn names_of_quoted_and_bare_identifiers() {
    let source = "codeunit 1 \"My Unit\"\n{\n}\ncodeunit 2 Bare\n{\n}";
    let tree = parse(source);
    let quoted = &tree.children[0].children[1];
    let bare = &tree.children[1].children[1];
    assert_eq!(node_text(quoted, source.as_bytes()), b"\"My Unit\"");
    assert_eq!(extract_name(quoted, source.as_bytes()), b"My Unit");
    assert_eq!(extract_name(bare, source.as_bytes()), b"Bare");
    // A node whose range lies outside the text has no text.
    assert_eq!(node_text(bare, b"short"), b"");
}

// ---------------------------------------------------------------------------
// Diagnostics.
// ---------------------------------------------------------------------------

#[test]
fn test_no_errors_for_valid_code() {
    let source = r#"codeunit 50100 Test
{
    procedure Hello()
    begin
    end;
}"#;
    let tree = parse(source);
    let diags = extract_diagnostics(&tree, source.as_bytes());
    assert!(diags.is_empty(), "expected no errors, got: {:?}", diags);
}

#[test]
fn test_errors_for_invalid_code() {
    let source = r#"codeunit 50100 Test
{
    procedure
}"#;
    let tree = parse(source);
    let diags = extract_diagnostics(&tree, source.as_bytes());
    assert!(!diags.is_empty(), "expected errors for invalid code");
    assert_eq!(text(&diags[0].message), "Expected `identifier`");
    assert_eq!(diags[0].severity, DiagnosticSeverity::Error);
    assert_eq!(text(&diags[0].source), "al-lsp");
    assert_eq!(diags[0].range, range((3, 0), (3, 1)));
}

#[test]
fn error_nodes_quote_the_first_fifty_characters() {
    let source = "x".repeat(60);
    let mut tree = parse("");
    tree.end_byte = 60;
    tree.end_point = Point { row: 0, column: 60 };
    tree.error = true;
    let diags = extract_diagnostics(&tree, source.as_bytes());
    assert_eq!(diags.len(), 1);
    assert_eq!(
        text(&diags[0].message),
        format!("Syntax error: unexpected `{}`", "x".repeat(50))
    );
    assert_eq!(diags[0].range, range((0, 0), (0, 60)));
    assert_eq!(take_characters("häßlich".as_bytes(), 3), "häß".as_bytes());
    assert_eq!(take_characters(b"ab", 3), b"ab");
}

// ---------------------------------------------------------------------------
// Documents.
// ---------------------------------------------------------------------------

#[test]
fn test_document_state_creation() {
    let source = r#"codeunit 50100 Test
{
    var
        X: Integer;

    procedure Hello()
    begin
    end;
}"#;
    let doc = document(source);
    assert!(doc.diagnostics().is_empty());
    assert_eq!(doc.symbols().len(), 1);
    assert_eq!(doc.symbols()[0].name, b"Test");
    // X + Hello
    assert_eq!(doc.symbols()[0].children.len(), 2);
}

#[test]
fn test_full_reparse() {
    let source1 = r#"codeunit 50100 Test
{
}"#;
    let mut doc = document(source1);
    assert_eq!(doc.symbols()[0].children.len(), 0);

    let source2 = r#"codeunit 50100 Test
{
    procedure Hello()
    begin
    end;
}"#;
    doc.reparse_full(source2, Some(parse(source2)));
    assert_eq!(doc.symbols()[0].children.len(), 1);
    assert_eq!(doc.symbols()[0].children[0].name, b"Hello");
}

#[test]
fn a_document_needs_a_tree() {
    assert!(DocumentState::new("codeunit 1 A\n{\n}", None).is_none());
    let mut doc = document("codeunit 1 A\n{\n}");
    doc.reparse_full("codeunit 2 B\n{\n}", None);
    assert_eq!(doc.source(), b"codeunit 1 A\n{\n}");
    assert_eq!(doc.symbols()[0].name, b"A");
}

#[test]
fn a_change_replaces_a_range_or_the_whole_text() {
    let doc = document("codeunit 1 A\n{\n}");
    let changed = doc.text_after_change(Some(range((0, 11), (0, 12))), b"Other");
    assert_eq!(text(&changed), "codeunit 1 Other\n{\n}");
    let changed = doc.text_after_change(None, b"new");
    assert_eq!(text(&changed), "new");
    // A range that starts beyond the document changes nothing.
    let changed = doc.text_after_change(Some(range((9, 0), (9, 1))), b"x");
    assert_eq!(text(&changed), "codeunit 1 A\n{\n}");
    // Nor does a range whose ends are out of order.
    let changed = doc.text_after_change(Some(range((1, 0), (0, 0))), b"x");
    assert_eq!(text(&changed), "codeunit 1 A\n{\n}");
}

#[test]
fn positions_become_byte_offsets_through_the_rope() {
    let doc = document("ab\ncde\n");
    assert_eq!(lsp_position_to_byte_offset(doc.rope(), position(0, 1)), Some(1));
    assert_eq!(lsp_position_to_byte_offset(doc.rope(), position(1, 2)), Some(5));
    assert_eq!(lsp_position_to_byte_offset(doc.rope(), position(2, 0)), Some(7));
    assert_eq!(lsp_position_to_byte_offset(doc.rope(), position(3, 0)), None);
    assert_eq!(
        ts_point_to_lsp_position(Point { row: 3, column: 4 }),
        position(3, 4)
    );
    assert_eq!(
        lsp_position_to_ts_point(position(3, 4)),
        Point { row: 3, column: 4 }
    );
    assert_eq!(
        ts_range_to_lsp_range(Point { row: 1, column: 2 }, Point { row: 3, column: 4 }),
        range((1, 2), (3, 4))
    );
}

// ---------------------------------------------------------------------------
// The known documents.
// ---------------------------------------------------------------------------

#[test]
fn documents_are_known_from_open_until_deleted() {
    let a = "file:///a.al".to_string();
    let source = "codeunit 1 A\n{\n}";
    let mut state = WorldState::new();
    assert_eq!(state.document_count(), 0);
    // A text that does not parse is not taken in.
    assert!(!state.did_open(a.clone(), source, None));
    assert_eq!(state.document_count(), 0);
    assert!(state.did_open(a.clone(), source, Some(parse(source))));
    assert_eq!(state.document_count(), 1);
    assert!(state.contains(&a));
    // Closing keeps the document.
    state.did_close(&a);
    assert!(state.contains(&a));
    // A change replaces the text; one that does not parse keeps it.
    let other = "codeunit 1 B\n{\n}";
    assert!(state.did_change(a.clone(), other, Some(parse(other))));
    assert_eq!(state.get(&a).unwrap().source(), other.as_bytes());
    assert!(state.did_change(a.clone(), "broken", None));
    assert_eq!(state.get(&a).unwrap().source(), other.as_bytes());
    assert!(!state.did_change("file:///b.al".to_string(), other, Some(parse(other))));
    assert_eq!(state.document_count(), 1);
    // A deletion on disk forgets it.
    state.did_change_watched_file(a.clone(), FileEvent::Deleted, Reload::Unreadable);
    assert!(!state.contains(&a));
    assert_eq!(state.document_count(), 0);
}

#[test]
fn files_are_loaded_once_and_reloaded_on_change() {
    let a = "file:///a.al".to_string();
    let first = "codeunit 1 A\n{\n}";
    let second = "codeunit 1 B\n{\n}";
    let loaded = |source: &str| Reload::Loaded {
        text: source.to_string(),
        tree: Some(parse(source)),
    };
    let mut state = WorldState::new();
    assert!(!state.load_file_uri(a.clone(), Reload::Unreadable));
    assert!(!state.load_file_uri(
        a.clone(),
        Reload::Loaded {
            text: first.to_string(),
            tree: None
        }
    ));
    assert!(state.load_file_uri(a.clone(), loaded(first)));
    // A document that is known already is left untouched by the scan.
    assert!(state.load_file_uri(a.clone(), loaded(second)));
    assert_eq!(state.get(&a).unwrap().source(), first.as_bytes());
    // A change on disk replaces it.
    state.did_change_watched_file(a.clone(), FileEvent::Changed, loaded(second));
    assert_eq!(state.get(&a).unwrap().source(), second.as_bytes());
    state.reload_file_from_disk(a.clone(), Reload::Unreadable);
    assert_eq!(state.document_count(), 1);
    // A file that is gone on reload is forgotten.
    state.did_change_watched_file(a.clone(), FileEvent::Created, Reload::Missing);
    assert_eq!(state.document_count(), 0);
    // The documents keep the order in which they were first seen.
    state.insert("file:///1.al".to_string(), document(first));
    state.insert("file:///2.al".to_string(), document(first));
    state.insert("file:///1.al".to_string(), document(second));
    let uris: Vec<&str> = (0..state.document_count())
        .map(|i| state.entry(i).unwrap().0.as_str())
        .collect();
    assert_eq!(uris, vec!["file:///1.al", "file:///2.al"]);
    assert_eq!(state.entry(0).unwrap().1.source(), second.as_bytes());
    assert_eq!(state.entry(1).unwrap().1.source(), first.as_bytes());
    assert!(state.entry(2).is_none());
    assert_eq!(state.position("file:///2.al"), Some(1));
    assert!(state.remove("file:///1.al"));
    assert!(!state.remove("file:///1.al"));
    assert!(state.get("file:///1.al").is_none());
    assert!(!state.contains("file:///1.al"));
    assert_eq!(state.position("file:///2.al"), Some(0));
    assert_eq!(state.get("file:///2.al").unwrap().source(), first.as_bytes());
    assert_eq!(state.document_count(), 1);
}

#[test]
fn the_workspace_scan_skips_hidden_and_build_directories() {
    assert!(skip_directory(b".git"));
    assert!(skip_directory(b"node_modules"));
    assert!(skip_directory(b"target"));
    assert!(!skip_directory(b"src"));
    assert!(!skip_directory(b"targets"));
    assert!(is_al_extension(b"al"));
    assert!(is_al_extension(b"AL"));
    assert!(!is_al_extension(b"md"));
    assert!(!is_al_extension(b"all"));
}

#[test]
fn workspace_roots_come_from_folders_then_uri_then_path() {
    let s = |t: &str| t.to_string();
    assert_eq!(
        resolve_roots(vec![s("/a"), s("/b")], Some(s("/c")), Some(s("/d"))),
        vec![s("/a"), s("/b")]
    );
    assert_eq!(
        resolve_roots(vec![], Some(s("/c")), Some(s("/d"))),
        vec![s("/c")]
    );
    assert_eq!(resolve_roots(vec![], None, Some(s("/d"))), vec![s("/d")]);
    assert!(resolve_roots(vec![], None, None).is_empty());
    assert_eq!(
        update_roots(
            vec![s("/a"), s("/b")],
            &vec![s("/a")],
            vec![s("/b"), s("/c"), s("/c")]
        ),
        vec![s("/b"), s("/c")]
    );
}

// ---------------------------------------------------------------------------
// Formatting.
// ---------------------------------------------------------------------------

#[test]
fn test_basic_codeunit_indentation() {
    let input = r#"codeunit 50100 Test
{
procedure Hello()
begin
end;
}"#;
    let result = format(input);
    let expected = r#"codeunit 50100 Test
{
    procedure Hello()
    begin
    end;
}
"#;
    assert_eq!(result, expected);
}

#[test]
fn test_procedure_with_var_and_body() {
    let input = r#"codeunit 50100 Test
{
procedure DoWork()
var
MyVar: Integer;
begin
MyVar := 42;
Message(MyVar);
end;
}"#;
    let result = format(input);
    let expected = r#"codeunit 50100 Test
{
    procedure DoWork()
    var
        MyVar: Integer;
    begin
        MyVar := 42;
        Message(MyVar);
    end;
}
"#;
    assert_eq!(result, expected);
}

#[test]
fn test_nested_if_statement() {
    let input = r#"codeunit 50100 Test
{
procedure DoWork()
begin
if x > 0 then
begin
y := 1;
end
else
begin
y := 2;
end;
end;
}"#;
    let result = format(input);
    let expected = r#"codeunit 50100 Test
{
    procedure DoWork()
    begin
        if x > 0 then
            begin
                y := 1;
            end
        else
            begin
                y := 2;
            end;
    end;
}
"#;
    assert_eq!(result, expected);
}

#[test]
fn test_table_with_fields_and_keys() {
    let input = r#"table 50100 Customer
{
fields
{
field(1; Name; Text[100])
{
Caption = 'Name';
}
}
keys
{
key(PK; Name)
{
Clustered = true;
}
}
}"#;
    let result = format(input);
    let expected = r#"table 50100 Customer
{
    fields
    {
        field(1; Name; Text[100])
        {
            Caption = 'Name';
        }
    }
    keys
    {
        key(PK; Name)
        {
            Clustered = true;
        }
    }
}
"#;
    assert_eq!(result, expected);
}

#[test]
fn test_interface_indentation() {
    let input = r#"interface IAddressProvider
{
procedure GetAddress(): Text;
}"#;
    let result = format(input);
    let expected = r#"interface IAddressProvider
{
    procedure GetAddress(): Text;
}
"#;
    assert_eq!(result, expected);
}

#[test]
fn test_preserves_blank_lines() {
    let input = r#"codeunit 50100 Test
{

    procedure Hello()
    begin
    end;

    procedure World()
    begin
    end;

}"#;
    let result = format(input);
    assert!(result.contains("\n\n"), "blank lines should be preserved");
}

#[test]
fn test_spacing_around_assignment() {
    let input = r#"codeunit 50100 Test
{
procedure DoWork()
var
X: Integer;
begin
X:=42;
end;
}"#;
    let result = format(input);
    assert!(
        result.contains("X := 42;"),
        "expected spaces around :=, got:\n{result}"
    );
}

const CANONICAL: &str = r#"codeunit 50100 "Hello World"
{
    procedure HelloWorld()
    var
        Greeting: Text;
    begin
        Greeting := 'Hello, World!';
        Message(Greeting);
    end;

    trigger OnRun()
    begin
        HelloWorld();
    end;
}
"#;

#[test]
fn test_already_formatted_unchanged() {
    let result = format(CANONICAL);
    assert_eq!(result, CANONICAL, "already-formatted code should not change");
}

#[test]
fn test_spacing_after_comma() {
    let input = r#"codeunit 50100 Test
{
procedure DoWork(A: Integer;B: Text)
begin
Foo(1,2,3);
end;
}"#;
    let result = format(input);
    assert!(
        result.contains("Foo(1, 2, 3);"),
        "expected spaces after commas, got:\n{result}"
    );
}

#[test]
fn test_for_loop_begin_joins_do_line() {
    let input = r#"codeunit 50100 Test
{
    procedure HelloWorld()
    var
        Counter: Integer;
    begin
        for Counter := 1 to 5 do
            begin
                Counter += 1;
            end;
    end;
}"#;
    let result = format(input);
    let expected = r#"codeunit 50100 Test
{
    procedure HelloWorld()
    var
        Counter: Integer;
    begin
        for Counter := 1 to 5 do begin
                Counter += 1;
        end;
    end;
}
"#;
    assert_eq!(result, expected);
}

#[test]
fn test_no_blank_lines_between_var_and_begin() {
    let input = r#"codeunit 50100 Test
{
    procedure DoWork()
    var
        X: Integer;

    begin
        X := 1;
    end;
}"#;
    let result = format(input);
    let expected = r#"codeunit 50100 Test
{
    procedure DoWork()
    var
        X: Integer;
    begin
        X := 1;
    end;
}
"#;
    assert_eq!(result, expected);
}

#[test]
fn test_no_blank_lines_between_procedure_and_var() {
    let input = r#"codeunit 50100 Test
{
    procedure HelloWorld()

    var
        Counter: Integer;
        IAddressProvider: Interface IAddressProvider;
    begin
        Counter := 1;
    end;
}"#;
    let result = format(input);
    let expected = r#"codeunit 50100 Test
{
    procedure HelloWorld()
    var
        Counter: Integer;
        IAddressProvider: Interface IAddressProvider;
    begin
        Counter := 1;
    end;
}
"#;
    assert_eq!(result, expected);
}

#[test]
fn test_repeat_until_indentation() {
    let input = r#"codeunit 50100 Test
{
procedure DoWork()
var
Counter: Integer;
begin
repeat
Counter += 1;
until Counter = 0;
end;
}"#;
    let result = format(input);
    let expected = r#"codeunit 50100 Test
{
    procedure DoWork()
    var
        Counter: Integer;
    begin
        repeat
            Counter += 1;
        until Counter = 0;
    end;
}
"#;
    assert_eq!(result, expected);
}

#[test]
fn test_compound_operator_spacing() {
    let input = r#"codeunit 50100 Test
{
    procedure DoWork()
    var
        X: Integer;
    begin
        X+=1;
        X-=2;
        X*=3;
        X/=4;
    end;
}"#;
    let result = format(input);
    assert!(
        result.contains("X += 1;"),
        "expected spaces around +=, got:\n{result}"
    );
    assert!(
        result.contains("X -= 2;"),
        "expected spaces around -=, got:\n{result}"
    );
    assert!(
        result.contains("X *= 3;"),
        "expected spaces around *=, got:\n{result}"
    );
    assert!(
        result.contains("X /= 4;"),
        "expected spaces around /=, got:\n{result}"
    );
}

#[test]
fn formatting_twice_gives_what_formatting_once_gives() {
    for input in [
        "codeunit 50100 Test\n{\nprocedure DoWork()\nvar\nX: Integer;\n\nbegin\nif X>0 then\nbegin\nX:=1;\nend\nelse\nbegin\nX+=2;\nend;\nrepeat\nX -= 1;\nuntil X=0;\nFoo(1,2 ,3) ;\nend;\n}\n\n\n",
        "table 50100 Customer\n{\nfields\n{\nfield(1; Name; Text[100])\n{\nCaption = 'Name';\n}\n}\n}",
        CANONICAL,
    ] {
        let once = format(input);
        let twice = format(&once);
        assert_eq!(twice, once);
    }
}

#[test]
fn formatting_with_tabs_and_other_widths() {
    let input = "codeunit 50100 Test\n{\nprocedure Hello()\nbegin\nend;\n}";
    let tree = parse(input);
    let tabs = FormatOptions {
        tab_size: 4,
        insert_spaces: false,
    };
    assert_eq!(
        text(&format_document(&tree, input.as_bytes(), &tabs)),
        "codeunit 50100 Test\n{\n\tprocedure Hello()\n\tbegin\n\tend;\n}\n"
    );
    let two = FormatOptions {
        tab_size: 2,
        insert_spaces: true,
    };
    assert_eq!(
        text(&format_document(&tree, input.as_bytes(), &two)),
        "codeunit 50100 Test\n{\n  procedure Hello()\n  begin\n  end;\n}\n"
    );
    let default = FormatOptions::default();
    assert_eq!(default.tab_size, 4);
    assert!(default.insert_spaces);
    // An empty document formats to one line feed.
    assert_eq!(text(&format_document(&parse(""), b"", &default)), "\n");
}

#[test]
fn spacing_rules_line_by_line() {
    let spaced = |line: &str| text(&apply_spacing(line.as_bytes()));
    assert_eq!(spaced("X:=42;"), "X := 42;");
    assert_eq!(spaced("a<>b"), "a <> b");
    assert_eq!(spaced("a<=b"), "a <= b");
    assert_eq!(spaced("a>=b"), "a >= b");
    assert_eq!(spaced("a<b"), "a < b");
    assert_eq!(spaced("a>b"), "a > b");
    assert_eq!(spaced("Foo(1 ,2,  3)"), "Foo(1, 2, 3)");
    assert_eq!(spaced("a ;b"), "a; b");
    assert_eq!(spaced("x   y"), "x y");
    assert_eq!(spaced("M('a:=b,c')"), "M('a:=b,c')");
    assert_eq!(spaced("// a:=b"), "// a:=b");
    assert_eq!(spaced("/* a,b"), "/* a,b");
    assert_eq!(spaced("* a,b"), "* a,b");
    assert_eq!(spaced(""), "");
    assert_eq!(spaced("x := 1;   "), "x := 1;");
    assert_eq!(spaced("'open"), "'open");
    for line in ["a:=b", "a , b;c", "x<y<=z", "f(1,'a,b' ,2);", "a  b", ":=x"] {
        assert_eq!(spaced(&spaced(line)), spaced(line));
    }
}

#[test]
fn indent_levels_joins_and_removals_of_a_tree() {
    let source = "codeunit 1 A\n{\nprocedure P()\n\nbegin\nfor I := 1 to 2 do\nbegin\nX := 1;\nend;\nend;\n}";
    let tree = parse(source);
    let mut marks = LineMarks::new(11);
    assign_indentation(&tree, source.as_bytes(), &mut marks, 0);
    assert_eq!(
        marks.levels,
        vec![
            Some(0),
            Some(0),
            Some(1),
            None,
            Some(1),
            Some(2),
            None,
            Some(4),
            Some(2),
            Some(1),
            Some(0)
        ]
    );
    let joined: Vec<usize> = (0..11).filter(|k| marks.join_to_prev[*k]).collect();
    assert_eq!(joined, vec![6]);
    let removed: Vec<usize> = (0..11).filter(|k| marks.remove_line[*k]).collect();
    assert_eq!(removed, vec![3]);
}

#[test]
fn the_first_claim_of_a_line_wins() {
    let mut levels = vec![None, Some(2), None];
    set_line_indent(&mut levels, 0, 1);
    set_line_indent(&mut levels, 1, 5);
    set_line_indent(&mut levels, 7, 5);
    assert_eq!(levels, vec![Some(1), Some(2), None]);
    set_line_indent(&mut levels, 0, 3);
    assert_eq!(levels, vec![Some(1), Some(2), None]);
}

#[test]
fn kinds_of_declarations_and_sections() {
    assert!(is_object_declaration(b"codeunit_declaration"));
    assert!(is_object_declaration(b"permissionset_declaration"));
    assert!(!is_object_declaration(b"procedure_declaration"));
    assert!(is_braced_section(b"fields_section"));
    assert!(is_braced_section(b"part_section"));
    assert!(!is_braced_section(b"var_section"));
    assert!(is_field_like_declaration(b"field_declaration"));
    assert!(is_field_like_declaration(b"page_action"));
    assert!(!is_field_like_declaration(b"codeunit_declaration"));
}

#[test]
fn lines_end_at_line_feeds() {
    let source = b"a\r\nb\n\nc\r";
    let index = index_lines(source);
    assert_eq!(index.len(), 4);
    assert_eq!(index.line(source, 0), b"a");
    assert_eq!(index.line(source, 1), b"b");
    assert_eq!(index.line(source, 2), b"");
    assert_eq!(index.line(source, 3), b"c\r");
    assert_eq!(index.line(source, 4), b"");
    assert_eq!(index_lines(b"").len(), 0);
    assert_eq!(index_lines(b"x\n").len(), 1);
    assert_eq!(trim(b" \t x y \r\n"), b"x y");
}

#[test]
fn white_space_is_what_unicode_calls_so() {
    // A no-break space, an em space and an ideographic space are trimmed
    // like a space or a tab.
    assert_eq!(trim(" \u{a0}x\u{a0} ".as_bytes()), b"x");
    assert_eq!(trim("\u{2003}\t x y\u{3000}\u{85}\n".as_bytes()), b"x y");
    assert_eq!(trim("\u{1680}\u{2028}\u{2029}\u{202f}\u{205f}".as_bytes()), b"");
    assert_eq!(trim_start("\u{a0} x ".as_bytes()), b"x ");
    assert_eq!(trim_end(" x \u{200a}".as_bytes()), b" x");
    // A zero-width space and an accented letter are no white space.
    assert_eq!(trim("\u{200b}x\u{e9}".as_bytes()), "\u{200b}x\u{e9}".as_bytes());
    assert!(has_space("a\u{a0}b".as_bytes()));
    assert!(has_space(b"a b"));
    assert!(has_space(b"a\tb"));
    assert!(!has_space("a\u{e9}b".as_bytes()));
    assert!(!has_space(b""));
    assert_eq!(space_len_at(" x".as_bytes(), 0), 1);
    assert_eq!(space_len_at("x\u{a0}".as_bytes(), 1), 2);
    assert_eq!(space_len_at("x\u{3000}".as_bytes(), 1), 3);
    assert_eq!(space_len_at("x\u{3000}".as_bytes(), 2), 0);
    assert_eq!(space_len_at(b"x", 1), 0);
    // It agrees with the standard library on every character.
    for code in 0..0x11_0000u32 {
        if let Some(c) = char::from_u32(code) {
            let text = c.to_string();
            assert_eq!(
                space_len_at(text.as_bytes(), 0) > 0,
                c.is_whitespace(),
                "U+{:04X}",
                code
            );
            assert_eq!(trim(text.as_bytes()), text.trim().as_bytes(), "U+{:04X}", code);
        }
    }
    // Names that hold white space are written in quotes.
    assert_eq!(written(b"New Name"), b"\"New Name\"");
    assert_eq!(written("New\u{a0}Name".as_bytes()), "\"New\u{a0}Name\"".as_bytes());
    assert_eq!(written(b"NewName"), b"NewName");
    // White space of any kind parts a type keyword from the name.
    assert_eq!(
        extract_type_object_name("Record\u{a0}Customer".as_bytes()),
        Some(&b"Customer"[..])
    );
}

#[test]
fn formatting_request_counts_the_last_line_in_characters() {
    let uri = "file:///test/test.al".to_string();
    let input = "codeunit 50100 Test\n{\nprocedure Hello()\nbegin\nend;\n} // \u{e9}\u{20ac}";
    let state = state_of(&[(&uri, input)]);
    let edits = handle_formatting(&state, &uri, 4, true).unwrap();
    assert_eq!(edits.len(), 1);
    assert_eq!(edits[0].range, range((0, 0), (5, 7)));
}

#[test]
fn formatting_request_answers_with_one_edit_or_none() {
    let uri = "file:///test/test.al".to_string();
    let input = "codeunit 50100 Test\n{\nprocedure Hello()\nbegin\nend;\n}";
    let state = state_of(&[(&uri, input), ("file:///ok.al", CANONICAL)]);
    let edits = handle_formatting(&state, &uri, 4, true).unwrap();
    assert_eq!(edits.len(), 1);
    assert_eq!(
        text(&edits[0].new_text),
        "codeunit 50100 Test\n{\n    procedure Hello()\n    begin\n    end;\n}\n"
    );
    assert_eq!(edits[0].range, range((0, 0), (5, 1)));
    // A document that conforms already gets no edit.
    assert!(handle_formatting(&state, &"file:///ok.al".to_string(), 4, true).is_none());
    assert!(handle_formatting(&state, &"file:///none.al".to_string(), 4, true).is_none());
}

// ---------------------------------------------------------------------------
// Navigation.
// ---------------------------------------------------------------------------

const MY_VAR: &str = r#"codeunit 50100 Test
{
    procedure DoWork()
    var
        MyVar: Integer;
    begin
        MyVar := 42
    end;
}"#;

#[test]
fn test_resolve_variable() {
    let source = MY_VAR;
    let tree = parse(source);
    let table = table_of(source);

    // Find "MyVar" in the assignment (the usage, not the declaration)
    let usage_offset = source.rfind("MyVar").unwrap();
    let resolved = resolve_at_offset(&tree, source.as_bytes(), &table, usage_offset);
    assert!(resolved.is_some(), "should resolve MyVar");
    let r = resolved.unwrap();
    assert_eq!(r.name, b"MyVar");
    assert_eq!(r.symbol.type_info.as_deref(), Some(&b"Integer"[..]));
}

#[test]
fn test_resolve_procedure() {
    let source = r#"codeunit 50100 Test
{
    procedure Hello()
    begin
    end;

    procedure DoWork()
    begin
        Hello()
    end;
}"#;
    let tree = parse(source);
    let table = table_of(source);

    // Find "Hello" in the call
    let call_offset = source.rfind("Hello").unwrap();
    let resolved = resolve_at_offset(&tree, source.as_bytes(), &table, call_offset);
    assert!(resolved.is_some(), "should resolve Hello");
    let r = resolved.unwrap();
    assert_eq!(r.name, b"Hello");
}

#[test]
fn test_no_resolve_on_keyword() {
    let source = r#"codeunit 50100 Test
{
    procedure DoWork()
    begin
    end;
}"#;
    let tree = parse(source);
    let table = table_of(source);

    // "begin" keyword offset
    let begin_offset = source.find("begin").unwrap();
    let resolved = resolve_at_offset(&tree, source.as_bytes(), &table, begin_offset);
    // begin is a keyword, not an identifier, so no resolution
    assert!(resolved.is_none(), "should not resolve keyword 'begin'");
}

#[test]
fn test_identifier_context_on_definition() {
    let source = MY_VAR;
    let tree = parse(source);
    let table = table_of(source);

    // On the definition of MyVar
    let def_offset = source.find("MyVar").unwrap();
    let ctx = identifier_context_at_offset(&tree, source.as_bytes(), &table, def_offset);
    assert!(ctx.is_some());
    let ctx = ctx.unwrap();
    assert_eq!(ctx.name, b"MyVar");
    assert!(ctx.is_definition);
    assert!(ctx.symbol.is_some());
}

#[test]
fn test_identifier_context_on_reference() {
    let source = MY_VAR;
    let tree = parse(source);
    let table = table_of(source);

    // On the usage of MyVar
    let usage_offset = source.rfind("MyVar").unwrap();
    let ctx = identifier_context_at_offset(&tree, source.as_bytes(), &table, usage_offset);
    assert!(ctx.is_some());
    let ctx = ctx.unwrap();
    assert_eq!(ctx.name, b"MyVar");
    assert!(!ctx.is_definition);
    assert!(ctx.symbol.is_some());
}

const MY_VAR_USES: &str = r#"codeunit 50100 Test
{
    procedure DoWork()
    var
        MyVar: Integer;
    begin
        MyVar := 42;
        MyVar := MyVar + 1
    end;
}"#;

#[test]
fn test_find_all_references() {
    let source = MY_VAR_USES;
    let tree = parse(source);
    let table = table_of(source);

    // From the first usage of MyVar
    let usage_offset = source[source.find("begin").unwrap()..]
        .find("MyVar")
        .unwrap()
        + source.find("begin").unwrap();

    // With declaration
    let refs = find_all_references(&tree, source.as_bytes(), &table, usage_offset, true);
    // declaration + 3 usages = 4
    assert!(refs.len() >= 3, "expected at least 3 refs, got {}", refs.len());

    // Without declaration
    let refs_no_decl = find_all_references(&tree, source.as_bytes(), &table, usage_offset, false);
    assert_eq!(refs_no_decl.len(), refs.len() - 1);
}

#[test]
fn references_hold_the_name_of_the_declaration_once() {
    let source = MY_VAR_USES;
    let tree = parse(source);
    let table = table_of(source);
    let declared = (Point { row: 4, column: 8 }, Point { row: 4, column: 13 });
    for offset in [
        source.find("MyVar").unwrap(),
        source.rfind("MyVar").unwrap(),
    ] {
        let refs = find_all_references(&tree, source.as_bytes(), &table, offset, true);
        assert_eq!(refs.iter().filter(|r| **r == declared).count(), 1);
        assert_eq!(refs.len(), 4);
        assert_eq!(refs[0], declared);
    }
    // Off every identifier there are no references.
    let off = source.find("begin").unwrap();
    assert!(find_all_references(&tree, source.as_bytes(), &table, off, true).is_empty());
}

#[test]
fn references_without_declarations_lack_that_one_range() {
    let source = MY_VAR_USES;
    let tree = parse(source);
    let table = table_of(source);
    let declared = (Point { row: 4, column: 8 }, Point { row: 4, column: 13 });
    let routine = (Point { row: 2, column: 14 }, Point { row: 2, column: 20 });
    for offset in [
        source.find("MyVar").unwrap(),
        source.rfind("MyVar").unwrap(),
    ] {
        let with = find_all_references(&tree, source.as_bytes(), &table, offset, true);
        let without = find_all_references(&tree, source.as_bytes(), &table, offset, false);
        let expected: Vec<_> = with.iter().filter(|r| **r != declared).cloned().collect();
        assert_eq!(without, expected);
        assert_eq!(without.len() + 1, with.len());
        assert!(!without.contains(&declared));
        // The name of another declaration is in neither list.
        assert!(!with.contains(&routine));
        assert!(!without.contains(&routine));
    }
}

#[test]
fn references_ignore_the_spelling_of_uses() {
    let source = r#"codeunit 50100 Test
{
    procedure DoWork()
    var
        MyVar: Integer;
    begin
        MYVAR := 42;
        "MyVar" := myvar + 1
    end;
}"#;
    let tree = parse(source);
    let table = table_of(source);
    let expected = vec![
        (Point { row: 4, column: 8 }, Point { row: 4, column: 13 }),
        (Point { row: 6, column: 8 }, Point { row: 6, column: 13 }),
        (Point { row: 7, column: 8 }, Point { row: 7, column: 15 }),
        (Point { row: 7, column: 19 }, Point { row: 7, column: 24 }),
    ];
    for offset in [
        source.find("MyVar").unwrap(),
        source.find("MYVAR").unwrap(),
        source.find("\"MyVar\"").unwrap() + 1,
        source.find("myvar").unwrap(),
    ] {
        let refs = find_all_references(&tree, source.as_bytes(), &table, offset, true);
        assert_eq!(refs, expected);
        let uses = find_all_references(&tree, source.as_bytes(), &table, offset, false);
        assert_eq!(uses, expected[1..].to_vec());
    }
}

#[test]
fn references_respect_shadowing() {
    let source = r#"codeunit 50100 Test
{
    var
        X: Integer;

    procedure One()
    var
        X: Integer;
    begin
        X := 1;
    end;

    procedure Two()
    begin
        X := 2;
    end;
}"#;
    let tree = parse(source);
    let table = table_of(source);
    let global = source.find("X").unwrap();
    let rows = |offset: usize| -> Vec<usize> {
        find_all_references(&tree, source.as_bytes(), &table, offset, true)
            .iter()
            .map(|r| r.0.row)
            .collect()
    };
    assert_eq!(rows(global), vec![3, 14]);
    let local = source.find("X := 1").unwrap();
    assert_eq!(rows(local), vec![7, 9]);
}

#[test]
fn test_collect_folding_ranges() {
    let source = r#"codeunit 50100 Test
{
    procedure Hello()
    begin
    end;

    procedure World()
    var
        X: Integer;
    begin
    end;
}"#;
    let tree = parse(source);
    let ranges = collect_folding_ranges(&tree);
    // At minimum: the codeunit and the two procedures
    assert!(
        ranges.len() >= 3,
        "expected at least 3 folding ranges, got {}",
        ranges.len()
    );
    assert!(ranges.iter().all(|r| r.end_line > r.start_line));
    let lines: Vec<(usize, usize)> = ranges.iter().map(|r| (r.start_line, r.end_line)).collect();
    assert_eq!(lines, vec![(0, 11), (2, 4), (6, 10), (7, 8)]);
    assert!(ranges.iter().all(|r| r.kind == FoldingAreaKind::Region));
}

#[test]
fn the_node_and_the_identifier_at_an_offset() {
    let source = MY_VAR;
    let tree = parse(source);
    let offset = source.rfind("MyVar").unwrap();
    let path = node_at_offset(&tree, offset).unwrap();
    let node = tree.descend(&path).unwrap();
    assert_eq!(node.kind, b"identifier");
    assert_eq!(node.start_byte, offset);
    assert_eq!(
        identifier_at_offset(&tree, source.as_bytes(), offset + 2),
        Some(b"MyVar".to_vec())
    );
    assert_eq!(
        identifier_at_offset(&tree, source.as_bytes(), source.find("begin").unwrap()),
        None
    );
    assert!(node_at_offset(&tree, source.len() + 1).is_none());
    assert!(tree.descend(&[99]).is_none());
}

#[test]
fn the_call_round_an_offset() {
    let source = r#"codeunit 50100 Test
{
    procedure Add(A: Integer; B: Integer): Integer
    begin
    end;

    procedure DoWork()
    begin
        Add(1, 2);
    end;
}"#;
    let tree = parse(source);
    let table = table_of(source);
    let call = source.rfind("Add(").unwrap();
    let first = find_call_context(&tree, source.as_bytes(), &table, call + 4).unwrap();
    assert_eq!(first.function_name, b"Add");
    assert_eq!(first.active_parameter, 0);
    assert_eq!(first.symbol.unwrap().children.len(), 2);
    let second = find_call_context(&tree, source.as_bytes(), &table, call + 7).unwrap();
    assert_eq!(second.active_parameter, 1);
    let outside = source.find("begin").unwrap();
    assert!(find_call_context(&tree, source.as_bytes(), &table, outside).is_none());
}

#[test]
fn test_extract_type_object_name() {
    assert_eq!(
        extract_type_object_name(b"Record \"Customer\""),
        Some(&b"Customer"[..])
    );
    assert_eq!(
        extract_type_object_name(b"Record Customer"),
        Some(&b"Customer"[..])
    );
    assert_eq!(
        extract_type_object_name(b"Codeunit \"Sales Mgt.\""),
        Some(&b"Sales Mgt."[..])
    );
    assert_eq!(extract_type_object_name(b"Integer"), None);
    assert_eq!(extract_type_object_name(b"Text[100]"), None);
}

#[test]
fn type_names_need_a_keyword_and_a_name() {
    assert_eq!(
        extract_type_object_name(b"  Interface IFoo  "),
        Some(&b"IFoo"[..])
    );
    assert_eq!(extract_type_object_name(b"Record"), None);
    assert_eq!(extract_type_object_name(b"Record \"\""), None);
    assert_eq!(extract_type_object_name(b"Enum Color"), Some(&b"Color"[..]));
    assert_eq!(extract_type_object_name(b"record Customer"), None);
    assert_eq!(extract_type_object_name(b""), None);
}

#[test]
fn a_longer_word_is_no_type_keyword() {
    assert_eq!(extract_type_object_name(b"RecordRef"), None);
    assert_eq!(extract_type_object_name(b"Pagestyle"), None);
    assert_eq!(extract_type_object_name(b"Enumerator"), None);
    assert_eq!(extract_type_object_name(b"Record\"Customer\""), None);
    assert_eq!(extract_type_object_name(b"  RecordRef  "), None);
    assert_eq!(
        extract_type_object_name(b"Record\tCustomer"),
        Some(&b"Customer"[..])
    );
    assert_eq!(
        extract_type_object_name(b"Page   \"Customer Card\" "),
        Some(&b"Customer Card"[..])
    );
    assert_eq!(extract_type_object_name(b"Report "), None);
}

// ---------------------------------------------------------------------------
// The symbol table.
// ---------------------------------------------------------------------------

#[test]
fn test_case_insensitive_lookup() {
    let source = r#"codeunit 50100 Test
{
    procedure HelloWorld()
    begin
    end;
}"#;
    let table = table_of(source);

    assert_eq!(table.lookup(b"helloworld").len(), 1);
    assert_eq!(table.lookup(b"HELLOWORLD").len(), 1);
    assert_eq!(table.lookup(b"HelloWorld").len(), 1);
    assert_eq!(table.lookup(b"nonexistent").len(), 0);
}

const SCOPES: &str = r#"codeunit 50100 Test
{
    var
        GlobalVar: Integer;

    procedure DoWork()
    var
        LocalVar: Text;
    begin
    end;
}"#;

#[test]
fn test_reachable_symbols() {
    let table = table_of(SCOPES);

    let proc_sym = &table.symbols()[0].children[1]; // DoWork
    let mid = (proc_sym.start_byte + proc_sym.end_byte) / 2;

    let reachable = table.reachable_symbols(mid);
    let names = names(&reachable);
    assert!(names.contains(&"LocalVar".to_string()), "should contain LocalVar");
    assert!(names.contains(&"GlobalVar".to_string()), "should contain GlobalVar");
    assert!(names.contains(&"DoWork".to_string()), "should contain DoWork");
    assert!(names.contains(&"Test".to_string()), "should contain Test object");
    assert_eq!(names, vec!["LocalVar", "GlobalVar", "DoWork", "Test"]);
}

#[test]
fn outside_every_object_all_objects_are_in_reach() {
    let source = "codeunit 1 A\n{\n}\n\n\ncodeunit 2 B\n{\n}";
    let table = table_of(source);
    let between = source.find("\n\n").unwrap() + 2;
    assert_eq!(names(&table.reachable_symbols(between)), vec!["A", "B"]);
    assert_eq!(names(&table.reachable_symbols(0)), vec!["A"]);
}

#[test]
fn test_find_object_by_name() {
    let source = r#"codeunit 50100 "My Codeunit"
{
}"#;
    let table = table_of(source);

    assert!(table.find_object_by_name(b"My Codeunit").is_some());
    assert!(table.find_object_by_name(b"my codeunit").is_some());
    assert!(table.find_object_by_name(b"Nonexistent").is_none());
}

#[test]
fn test_al_keywords() {
    let keywords = al_keywords();
    assert!(keywords.contains(&"begin"));
    assert!(keywords.contains(&"procedure"));
    assert!(keywords.len() > 20);
}

#[test]
fn test_scoped_lookup() {
    let table = table_of(SCOPES);

    // Inside the procedure, LocalVar should be found
    let proc_sym = &table.symbols()[0].children[1]; // DoWork
    let mid = (proc_sym.start_byte + proc_sym.end_byte) / 2;

    let results = table.lookup_in_scope(b"localvar", mid);
    assert_eq!(results.len(), 1);
    assert_eq!(results[0].name, b"LocalVar");

    // GlobalVar should also be accessible
    let results = table.lookup_in_scope(b"globalvar", mid);
    assert_eq!(results.len(), 1);
    assert_eq!(results[0].name, b"GlobalVar");
}

#[test]
fn scoped_lookup_prefers_the_innermost_scope() {
    let source = r#"codeunit 50100 Test
{
    var
        X: Integer;

    procedure One()
    var
        X: Text;
    begin
    end;

    procedure Two()
    begin
    end;
}

codeunit 50101 Other
{
    procedure X()
    begin
    end;
}"#;
    let table = table_of(source);
    let in_one = source.find("begin").unwrap();
    let found = table.lookup_in_scope(b"x", in_one);
    assert_eq!(found.len(), 1);
    assert_eq!(found[0].type_info.as_deref(), Some(&b"Text"[..]));
    let in_two = source.rfind("procedure Two").unwrap() + 20;
    let found = table.lookup_in_scope(b"X", in_two);
    assert_eq!(found.len(), 1);
    assert_eq!(found[0].type_info.as_deref(), Some(&b"Integer"[..]));
    // A name that no scope round the offset knows is looked up globally.
    let found = table.lookup_in_scope(b"other", in_two);
    assert_eq!(names(&found), vec!["Other"]);
    assert_eq!(names(&table.lookup(b"other")), vec!["Other"]);
    // The global lookup lists every symbol of the name in source order.
    let all = table.lookup(b"x");
    assert_eq!(all.len(), 3);
    assert_eq!(all[0].type_info.as_deref(), Some(&b"Integer"[..]));
    assert_eq!(all[2].kind, AlSymbolKind::Procedure);
    assert!(table.lookup_in_scope(b"unknown", in_two).is_empty());
}

#[test]
fn lookups_do_not_tell_case_or_quotes_apart() {
    let source = "codeunit 1 \"Sales Mgt\"\n{\n    procedure \"Do It\"()\n    begin\n        DOIT();\n    end;\n\n    procedure DoIt()\n    begin\n    end;\n}";
    let table = table_of(source);
    assert_eq!(names(&table.lookup(b"SALES MGT")), vec!["Sales Mgt"]);
    assert_eq!(names(&table.lookup(b"do it")), vec!["Do It"]);
    assert_eq!(
        names(&table.lookup(b"DOIT")),
        names(&table.lookup(b"doit"))
    );
    assert_eq!(names(&table.lookup("ÄRGER".as_bytes())).len(), 0);
    let umlauts = "codeunit 1 Ärger\n{\n}";
    let table = table_of(umlauts);
    assert_eq!(names(&table.lookup("ärger".as_bytes())), vec!["Ärger"]);
    assert!(table.find_object_by_name("ÄRGER".as_bytes()).is_some());
}

#[test]
fn test_interface_method_at() {
    let source = r#"interface IAddressProvider
{
    procedure GetAddress(): Text;
    procedure SetAddress(NewAddr: Text);
}"#;
    let table = table_of(source);

    // Cursor on "GetAddress" method name
    let get_addr_offset = source.find("GetAddress").unwrap();
    let result = table.interface_method_at(get_addr_offset);
    assert!(result.is_some());
    let (iface_name, method_name) = result.unwrap();
    assert_eq!(iface_name, b"IAddressProvider");
    assert_eq!(method_name, b"GetAddress");

    // Cursor on "SetAddress" method name
    let set_addr_offset = source.find("SetAddress").unwrap();
    let result = table.interface_method_at(set_addr_offset);
    assert!(result.is_some());
    let (iface_name, method_name) = result.unwrap();
    assert_eq!(iface_name, b"IAddressProvider");
    assert_eq!(method_name, b"SetAddress");

    // Cursor on interface name itself — not a method
    let iface_offset = source.find("IAddressProvider").unwrap();
    let result = table.interface_method_at(iface_offset);
    assert!(result.is_none());
}

const IMPLEMENTER: &str = r#"interface IAddressProvider
{
    procedure GetAddress(): Text;
}

codeunit 50200 CompanyAddressProvider implements IAddressProvider
{
    procedure GetAddress(): Text
    begin
    end;

    procedure HelperMethod()
    begin
    end;
}"#;

#[test]
fn test_find_implementation_procedures() {
    let table = table_of(IMPLEMENTER);

    // Should find GetAddress in the implementing codeunit
    let impls = table.find_implementation_procedures(b"IAddressProvider", b"GetAddress");
    assert_eq!(impls.len(), 1);
    assert_eq!(impls[0].name, b"GetAddress");

    // Case-insensitive
    let impls = table.find_implementation_procedures(b"iaddressprovider", b"getaddress");
    assert_eq!(impls.len(), 1);

    // HelperMethod exists in the implementing codeunit but is not named in the interface.
    // However, find_implementation_procedures just matches by name in implementing objects,
    // so it WILL find it. The caller controls which method names to search for.
    let impls = table.find_implementation_procedures(b"IAddressProvider", b"HelperMethod");
    assert_eq!(impls.len(), 1);

    // Non-existent interface
    let impls = table.find_implementation_procedures(b"INonExistent", b"GetAddress");
    assert_eq!(impls.len(), 0);
}

#[test]
fn procedures_are_found_in_their_objects() {
    let source = IMPLEMENTER;
    let table = table_of(source);
    let in_impl = source.rfind("GetAddress").unwrap();
    let found = table.implementation_procedure_at(in_impl).unwrap();
    assert_eq!(found.0, &vec![b"IAddressProvider".to_vec()]);
    assert_eq!(found.1, b"GetAddress");
    assert_eq!(
        table.codeunit_procedure_at(in_impl),
        Some((&b"CompanyAddressProvider"[..], &b"GetAddress"[..]))
    );
    let in_iface = source.find("GetAddress").unwrap();
    assert!(table.implementation_procedure_at(in_iface).is_none());
    assert!(table.codeunit_procedure_at(in_iface).is_none());
    assert_eq!(
        table
            .find_interface_method(b"iaddressprovider", b"GETADDRESS")
            .unwrap()
            .start_point
            .row,
        2
    );
    assert!(table
        .find_interface_method(b"CompanyAddressProvider", b"GetAddress")
        .is_none());
    assert_eq!(
        table
            .find_object_procedure(b"companyaddressprovider", b"helpermethod")
            .unwrap()
            .start_point
            .row,
        11
    );
    assert!(table
        .find_object_procedure(b"CompanyAddressProvider", b"Missing")
        .is_none());
}

#[test]
fn test_implements_clause_extraction() {
    let source = r#"codeunit 50200 MyCodeunit implements IFoo, IBar
{
    procedure DoSomething()
    begin
    end;
}"#;
    let table = table_of(source);

    assert_eq!(table.symbols().len(), 1);
    let cu = &table.symbols()[0];
    assert_eq!(cu.implements.len(), 2);
    assert_eq!(cu.implements[0], b"IFoo");
    assert_eq!(cu.implements[1], b"IBar");
}

#[test]
fn hover_texts() {
    let table = table_of(SCOPES);
    let object = &table.symbols()[0];
    assert_eq!(text(&format_hover(object)), "```al\n(codeunit) Test: codeunit\n```");
    assert_eq!(
        text(&format_hover(&object.children[0])),
        "```al\n(variable) GlobalVar: Integer\n```"
    );
    assert_eq!(
        text(&format_hover(&object.children[1])),
        "```al\n(procedure) DoWork\n```"
    );
}

// ---------------------------------------------------------------------------
// The other requests.
// ---------------------------------------------------------------------------

#[test]
fn hover_shows_what_an_identifier_resolves_to() {
    let uri = "file:///test/test.al".to_string();
    let state = state_of(&[(&uri, MY_VAR)]);
    let on_use = handle_hover(&state, &uri, position(6, 9)).unwrap();
    assert_eq!(text(&on_use), "```al\n(variable) MyVar: Integer\n```");
    let on_declaration = handle_hover(&state, &uri, position(4, 9)).unwrap();
    assert_eq!(text(&on_declaration), "```al\n(variable) MyVar: Integer\n```");
    assert!(handle_hover(&state, &uri, position(5, 5)).is_none());
}

#[test]
fn highlights_are_the_references_inside_the_document() {
    let uri = "file:///test/test.al".to_string();
    let state = state_of(&[(&uri, MY_VAR_USES)]);
    let ranges = handle_document_highlight(&state, &uri, position(6, 9)).unwrap();
    let starts: Vec<(u32, u32)> = ranges
        .iter()
        .map(|r| (r.start.line, r.start.character))
        .collect();
    assert_eq!(starts, vec![(4, 8), (6, 8), (7, 8), (7, 17)]);
    assert!(handle_document_highlight(&state, &uri, position(5, 5)).is_none());
}

#[test]
fn completion_offers_symbols_in_reach_and_keywords() {
    let uri = "file:///test/test.al".to_string();
    let source = "codeunit 50100 Test\n{\n    var\n        Total: Integer;\n\n    procedure DoWork()\n    var\n        Temp: Text;\n    begin\n        T\n    end;\n}";
    let state = state_of(&[(&uri, source)]);
    let items = handle_completion(&state, &uri, position(9, 9)).unwrap();
    let labels: Vec<String> = items.iter().map(|i| text(&i.label)).collect();
    assert_eq!(
        labels,
        vec![
            "Temp",
            "Total",
            "Test",
            "then",
            "to",
            "trigger",
            "true",
            "temporary",
            "table",
            "tableextension"
        ]
    );
    assert_eq!(items[0].kind, CompletionItemKind::Variable);
    assert_eq!(items[0].detail.as_deref(), Some(&b"Text"[..]));
    assert_eq!(items[2].kind, CompletionItemKind::Class);
    assert_eq!(items[3].kind, CompletionItemKind::Keyword);
    assert_eq!(extract_prefix(b"Foo.Ba", 6), b"Ba");
    assert_eq!(extract_prefix(b"Foo.Ba", 4), b"");
    assert_eq!(extract_prefix(b"x_1", 99), b"x_1");
    assert_eq!(extract_prefix(b"", 0), b"");
}

#[test]
fn signature_help_shows_the_routine_of_the_call() {
    let uri = "file:///test/test.al".to_string();
    let source = r#"codeunit 50100 Test
{
    procedure Add(A: Integer; B: Integer): Integer
    begin
    end;

    procedure Nothing()
    begin
    end;

    procedure DoWork()
    begin
        Add(1, 2);
        Nothing();
    end;
}"#;
    let state = state_of(&[(&uri, source)]);
    let help = handle_signature_help(&state, &uri, position(12, 15)).unwrap();
    assert_eq!(text(&help.label), "Add(A: Integer, B: Integer): Integer");
    assert_eq!(
        help.parameters,
        Some(vec![b"A: Integer".to_vec(), b"B: Integer".to_vec()])
    );
    assert_eq!(help.active_parameter, 1);
    let help = handle_signature_help(&state, &uri, position(13, 16)).unwrap();
    assert_eq!(text(&help.label), "Nothing()");
    assert_eq!(help.parameters, None);
    assert_eq!(help.active_parameter, 0);
    assert!(handle_signature_help(&state, &uri, position(3, 6)).is_none());
}

#[test]
fn type_definition_leads_to_the_object_of_the_type() {
    let a = "file:///a.al".to_string();
    let b = "file:///b.al".to_string();
    let first = "codeunit 1 User\n{\n    procedure Run()\n    var\n        Helper: Codeunit \"Sales Mgt\";\n        Count: Integer;\n    begin\n        Helper.Go();\n        Count := 1;\n    end;\n}";
    let second = "codeunit 2 \"Sales Mgt\"\n{\n    procedure Go()\n    begin\n    end;\n}";
    let state = state_of(&[(&a, first), (&b, second)]);
    let found = handle_goto_type_definition(&state, &a, position(7, 9)).unwrap();
    assert_eq!(found.uri, b);
    assert_eq!(found.range.start, position(0, 0));
    assert!(handle_goto_type_definition(&state, &a, position(8, 9)).is_none());
}

#[test]
fn document_symbols_mirror_the_symbols() {
    let uri = "file:///test/test.al".to_string();
    let state = state_of(&[(&uri, SCOPES)]);
    let outline = handle_document_symbol(&state, &uri).unwrap();
    assert_eq!(outline.len(), 1);
    assert_eq!(outline[0].name, b"Test");
    assert_eq!(outline[0].kind, al_lsp::ast::OutlineKind::Class);
    assert_eq!(outline[0].detail.as_deref(), Some(&b"codeunit"[..]));
    let members = outline[0].children.as_ref().unwrap();
    assert_eq!(members.len(), 2);
    assert_eq!(members[0].name, b"GlobalVar");
    assert!(members[0].children.is_none());
    assert_eq!(members[1].range, range((5, 4), (9, 8)));
    assert_eq!(members[1].selection_range, members[1].range);
    assert_eq!(members[1].children.as_ref().unwrap()[0].name, b"LocalVar");
    assert!(handle_document_symbol(&state, &"file:///none.al".to_string()).is_none());
}

#[test]
fn folding_ranges_of_a_document() {
    let uri = "file:///test/test.al".to_string();
    let state = state_of(&[(&uri, SCOPES), ("file:///flat.al", "codeunit 1 A {}")]);
    let ranges = handle_folding_range(&state, &uri).unwrap();
    let lines: Vec<(u32, u32)> = ranges.iter().map(|r| (r.start_line, r.end_line)).collect();
    assert_eq!(lines, vec![(0, 10), (2, 3), (5, 9), (6, 7)]);
    assert!(handle_folding_range(&state, &"file:///flat.al".to_string()).is_none());
}

#[test]
fn workspace_symbols_answer_a_query() {
    let state = state_of(&[("file:///a.al", SCOPES), ("file:///b.al", IMPL)]);
    let found = handle_workspace_symbol(&state, b"var").unwrap();
    let labels: Vec<String> = found.iter().map(|s| text(&s.name)).collect();
    assert_eq!(labels, vec!["GlobalVar", "LocalVar"]);
    assert_eq!(found[0].location.uri, "file:///a.al");
    let all = handle_workspace_symbol(&state, b"").unwrap();
    let labels: Vec<String> = all.iter().map(|s| text(&s.name)).collect();
    assert_eq!(
        labels,
        vec![
            "Test",
            "GlobalVar",
            "DoWork",
            "LocalVar",
            "CompanyAddressProvider",
            "GetAddress"
        ]
    );
    assert!(handle_workspace_symbol(&state, b"zzz").is_none());
    assert!(handle_workspace_symbol(&WorldState::new(), b"").is_none());
}
