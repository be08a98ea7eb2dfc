//! Schema builder: a pure, total walk of the syntax tree that accumulates
//! the table name and one field per column declaration, in declaration
//! order, into the finished schema model.

use vstd::prelude::*;
use crate::parser::{Ast, ColumnModel, ColumnType, body_cols, body_wf, expr2_model, stmt_model, stmt_wf};

verus! {

/// One column of the schema model: its name and the textual rendering of its
/// type.
#[derive(Debug)]
pub struct Field {
    pub name: String,
    pub field_type: String,
}

/// Mathematical model of a field.
pub struct FieldModel {
    pub name: Seq<char>,
    pub field_type: Seq<char>,
}

impl View for Field {
    type V = FieldModel;

    open spec fn view(&self) -> FieldModel {
        FieldModel { name: self.name@, field_type: self.field_type@ }
    }
}

/// The schema model: the table name and its fields in declaration order.
#[derive(Debug)]
pub struct TableStruct {
    pub name: String,
    pub fields: Vec<Field>,
}

/// Mathematical model of a table.
pub struct TableModel {
    pub name: Seq<char>,
    pub fields: Seq<FieldModel>,
}

/// The model of a field sequence.
pub open spec fn fields_view(fs: Seq<Field>) -> Seq<FieldModel> {
    fs.map_values(|f: Field| f@)
}

impl View for TableStruct {
    type V = TableModel;

    open spec fn view(&self) -> TableModel {
        TableModel { name: self.name@, fields: fields_view(self.fields@) }
    }
}

impl PartialEq for Field {
    fn eq(&self, other: &Self) -> bool {
        self.name == other.name && self.field_type == other.field_type
    }
}

impl vstd::std_specs::cmp::PartialEqSpecImpl for Field {
    open spec fn obeys_eq_spec() -> bool {
        true
    }

    open spec fn eq_spec(&self, other: &Self) -> bool {
        self@ == other@
    }
}

impl PartialEq for TableStruct {
    fn eq(&self, other: &Self) -> bool {
        if self.name != other.name {
            return false;
        }
        if self.fields.len() != other.fields.len() {
            proof {
                assert(fields_view(self.fields@).len() == self.fields@.len());
                assert(fields_view(other.fields@).len() == other.fields@.len());
            }
            return false;
        }
        let mut i: usize = 0;
        while i < self.fields.len()
            invariant
                0 <= i <= self.fields@.len(),
                self.fields@.len() == other.fields@.len(),
                forall|j: int| 0 <= j < i ==> #[trigger] self.fields@[j]@ == other.fields@[j]@,
            decreases self.fields@.len() - i,
        {
            if self.fields[i] != other.fields[i] {
                proof {
                    assert(fields_view(self.fields@)[i as int] == self.fields@[i as int]@);
                    assert(fields_view(other.fields@)[i as int] == other.fields@[i as int]@);
                }
                return false;
            }
            i = i + 1;
        }
        proof {
            assert(fields_view(self.fields@) =~= fields_view(other.fields@));
        }
        true
    }
}

impl vstd::std_specs::cmp::PartialEqSpecImpl for TableStruct {
    open spec fn obeys_eq_spec() -> bool {
        true
    }

    open spec fn eq_spec(&self, other: &Self) -> bool {
        self@ == other@
    }
}

/// The textual rendering of a column type, as it appears in a field.
pub open spec fn spec_type_name(t: ColumnType) -> Seq<char> {
    match t {
        ColumnType::Int => "Int"@,
        ColumnType::Json => "Json"@,
        ColumnType::Varchar => "Varchar"@,
        ColumnType::Date => "Date"@,
    }
}

fn render_type(t: &ColumnType) -> (r: String)
    ensures
        r@ == spec_type_name(*t),
{
    match t {
        ColumnType::Int => "Int".to_owned(),
        ColumnType::Json => "Json".to_owned(),
        ColumnType::Varchar => "Varchar".to_owned(),
        ColumnType::Date => "Date".to_owned(),
    }
}

/// The field a parsed column declaration turns into.
pub open spec fn column_field(c: ColumnModel) -> FieldModel {
    FieldModel { name: c.name, field_type: spec_type_name(c.column_type) }
}

/// What evaluating a tree means, as a fold over the accumulated table name
/// and field sequence: a statement root sets the name, a body node walks its
/// head and then its tail, a declaration leaf appends one field.
pub open spec fn spec_eval(ast: Ast, name: Seq<char>, fields: Seq<FieldModel>) -> (
    Seq<char>,
    Seq<FieldModel>,
)
    decreases ast,
{
    match ast {
        Ast::Expr { table_name, expr1 } => spec_eval(*expr1, table_name@, fields),
        Ast::Expr1 { expr2, expr1 } => {
            let head = spec_eval(*expr2, name, fields);
            match expr1 {
                Some(rest) => spec_eval(*rest, head.0, head.1),
                None => head,
            }
        },
        Ast::Expr2 { name: n, column_type, null } => (
            name,
            fields.push(FieldModel { name: n@, field_type: spec_type_name(column_type) }),
        ),
    }
}

/// The accumulator of the schema walk: a plain mutable table name and a
/// growable field list.
struct TableStructBuilder {
    name: String,
    fields: Vec<Field>,
}

impl TableStructBuilder {
    fn new() -> (r: Self)
        ensures
            r.name@ == Seq::<char>::empty(),
            r.fields@ == Seq::<Field>::empty(),
    {
        Self { name: String::new(), fields: Vec::new() }
    }

    fn name(&mut self, name: String)
        ensures
            final(self).name == name,
            final(self).fields == old(self).fields,
    {
        self.name = name;
    }

    fn field(&mut self, field: Field)
        ensures
            final(self).name == old(self).name,
            final(self).fields@ == old(self).fields@.push(field),
    {
        self.fields.push(field);
    }

    fn build(self) -> (r: TableStruct)
        ensures
            r.name == self.name,
            r.fields == self.fields,
    {
        TableStruct { name: self.name, fields: self.fields }
    }
}

/// The interpreter. It holds no state: each run folds one tree into one
/// schema model.
pub struct Interpreter {}

impl Interpreter {
    /// Walks the tree into the finished schema model, exactly as
    /// [`spec_eval`] says, starting from an empty name and no fields.
    pub fn run(&self, ast: Ast) -> (r: TableStruct)
        ensures
            r.name@ == spec_eval(ast, Seq::<char>::empty(), Seq::<FieldModel>::empty()).0,
            fields_view(r.fields@) == spec_eval(
                ast,
                Seq::<char>::empty(),
                Seq::<FieldModel>::empty(),
            ).1,
    {
        let mut builder = TableStructBuilder::new();
        proof {
            assert(fields_view(Seq::<Field>::empty()) =~= Seq::<FieldModel>::empty());
        }
        self.eval(ast, &mut builder);
        builder.build()
    }

    fn eval(&self, ast: Ast, builder: &mut TableStructBuilder)
        ensures
            final(builder).name@ == spec_eval(
                ast,
                old(builder).name@,
                fields_view(old(builder).fields@),
            ).0,
            fields_view(final(builder).fields@) == spec_eval(
                ast,
                old(builder).name@,
                fields_view(old(builder).fields@),
            ).1,
        decreases ast,
    {
        match ast {
            Ast::Expr { table_name, expr1 } => {
                builder.name(table_name);
                self.eval(*expr1, builder);
            },
            Ast::Expr1 { expr2, expr1 } => {
                self.eval(*expr2, builder);
                match expr1 {
                    Some(rest) => {
                        self.eval(*rest, builder);
                    },
                    None => {},
                }
            },
            Ast::Expr2 { name, column_type, null } => {
                let ghost before = fields_view(builder.fields@);
                let field = Field { name, field_type: render_type(&column_type) };
                let ghost fm = field@;
                builder.field(field);
                proof {
                    assert(fields_view(builder.fields@) =~= before.push(fm));
                }
            },
        }
    }
}

/// Round-trip shape: interpreting a well-formed statement tree, from any
/// starting accumulator, yields the statement's table name and appends
/// exactly one field per column, in declaration order, each field rendering
/// its column's name and type.
pub proof fn lemma_interpret_statement(ast: Ast, name0: Seq<char>, fields0: Seq<FieldModel>)
    requires
        stmt_wf(ast),
    ensures
        spec_eval(ast, name0, fields0).0 == stmt_model(ast).table_name,
        spec_eval(ast, name0, fields0).1 == fields0 + stmt_model(ast).columns.map_values(
            |c: ColumnModel| column_field(c),
        ),
        spec_eval(ast, name0, fields0).1.len() == fields0.len() + stmt_model(ast).columns.len(),
        forall|i: int|
            0 <= i < stmt_model(ast).columns.len() ==> spec_eval(ast, name0, fields0).1[fields0.len()
                + i] == column_field(#[trigger] stmt_model(ast).columns[i]),
{
    match ast {
        Ast::Expr { table_name, expr1 } => {
            lemma_eval_body(*expr1, table_name@, fields0);
        },
        _ => {},
    }
}

proof fn lemma_eval_body(ast: Ast, name0: Seq<char>, fields0: Seq<FieldModel>)
    requires
        body_wf(ast),
    ensures
        spec_eval(ast, name0, fields0).0 == name0,
        spec_eval(ast, name0, fields0).1 == fields0 + body_cols(ast).map_values(
            |c: ColumnModel| column_field(c),
        ),
    decreases ast,
{
    match ast {
        Ast::Expr1 { expr2, expr1 } => {
            let c = expr2_model(*expr2);
            let after_head = fields0.push(column_field(c));
            assert(spec_eval(*expr2, name0, fields0) == (name0, after_head));
            match expr1 {
                Some(rest) => {
                    lemma_eval_body(*rest, name0, after_head);
                    assert(after_head + body_cols(*rest).map_values(|cc: ColumnModel| column_field(cc))
                        =~= fields0 + body_cols(ast).map_values(|cc: ColumnModel| column_field(cc)));
                },
                None => {
                    assert(after_head =~= fields0 + body_cols(ast).map_values(
                        |cc: ColumnModel| column_field(cc),
                    ));
                },
            }
        },
        _ => {},
    }
}

} // verus!
