//! Tables: a grid of column widths, and rows of cells that hold paragraphs.

use vstd::prelude::*;
use crate::codec::lookup::{attribute_value, lemma_attribute_value_optional};
use crate::codec::number::{
    decimal, format_isize, isize_value, lemma_decimal_round_trip, parse_isize,
};
use crate::codec::part::{
    children_of, disjoint, first_of, lemma_children_push, lemma_children_well_formed,
    lemma_first_in_context, lemma_none_accepted_concat, lemma_optional_then_children,
    lemma_optional_well_formed, lemma_others_children, lemma_others_optional,
    lemma_values_in_context, lemma_values_round_trip, option_view, optional_child, push_children,
    push_optional, read_children, read_optional, values_of, XmlCodec,
};
use crate::codec::text::same_text;
use crate::codec::tree::{
    lemma_all_well_formed_concat, lemma_children_views, lemma_views_push, rendered, rendered_all,
    views, Attribute, AttributeView, Element, ElementView,
};
use crate::document::paragraph::{Paragraph, ParagraphView};
use crate::error::XmlError;
use crate::formatting::{TableCellProperty, TableProperty, TableRowProperty};

verus! {

/// A column of a table grid, written `<w:gridCol w:w="width">`.
#[derive(Debug, Default, Clone, Copy, PartialEq, Eq)]
pub struct GridColumn {
    /// The width of the column, in twentieths of a point.
    pub width: isize,
}

impl View for GridColumn {
    type V = GridColumn;

    open spec fn view(&self) -> GridColumn {
        *self
    }
}

impl XmlCodec for GridColumn {
    open spec fn accepts(name: Seq<char>) -> bool {
        name == "w:gridCol"@
    }

    open spec fn vacant(v: GridColumn) -> bool {
        false
    }

    open spec fn element_of(v: GridColumn) -> ElementView {
        ElementView {
            name: "w:gridCol"@,
            attributes: seq![AttributeView { name: "w:w"@, value: decimal(v.width as int) }],
            text: Seq::empty(),
            children: Seq::empty(),
            empty_tag: false,
        }
    }

    open spec fn value_of(e: ElementView) -> Result<GridColumn, XmlError> {
        if e.name != "w:gridCol"@ {
            Err(XmlError::MissingElement)
        } else {
            match attribute_value(e.attributes, "w:w"@) {
                Some(text) => match isize_value(text) {
                    Some(width) => Ok(GridColumn { width }),
                    None => Err(XmlError::InvalidValue),
                },
                None => Err(XmlError::MissingAttribute),
            }
        }
    }

    proof fn law_round_trip(v: GridColumn) {
        lemma_attribute_value_optional("w:w"@, Some(decimal(v.width as int)), "w:w"@);
        lemma_decimal_round_trip(v.width as int);
    }

    proof fn law_suppression(v: GridColumn) {
    }

    fn accepts_name(name: &str) -> (r: bool) {
        same_text(name, "w:gridCol")
    }

    fn to_element(&self) -> (e: Element) {
        let mut attributes: Vec<Attribute> = Vec::new();
        let width = format_isize(self.width);
        attributes.push(Attribute::new("w:w", width.as_str()));
        let e = Element {
            name: String::from_str("w:gridCol"),
            attributes,
            text: String::new(),
            children: Vec::new(),
            empty_tag: false,
        };
        proof {
            lemma_children_views(e);
            assert(e@.children =~= Seq::empty());
            assert(e@.attributes =~= Self::element_of(self@).attributes);
        }
        e
    }

    fn from_element(e: &Element) -> (r: Result<GridColumn, XmlError>) {
        if !same_text(e.name.as_str(), "w:gridCol") {
            return Err(XmlError::MissingElement);
        }
        match e.attribute("w:w") {
            Some(text) => match parse_isize(text.as_str()) {
                Some(width) => Ok(GridColumn { width }),
                None => Err(XmlError::InvalidValue),
            },
            None => Err(XmlError::MissingAttribute),
        }
    }
}

/// The grid of a table: the widths of its columns, written as the element
/// `w:tblGrid` around one `w:gridCol` for each column.
#[derive(Debug, Clone, PartialEq, Eq)]
pub struct TableGrid {
    /// The columns, from the first to the last.
    pub columns: Vec<GridColumn>,
}

/// What a [`TableGrid`] holds.
pub struct TableGridView {
    pub columns: Seq<GridColumn>,
}

impl View for TableGrid {
    type V = TableGridView;

    open spec fn view(&self) -> TableGridView {
        TableGridView { columns: views(self.columns@) }
    }
}

impl Default for TableGrid {
    /// The grid without columns.
    fn default() -> (r: TableGrid)
        ensures
            r@.columns == Seq::<GridColumn>::empty(),
    {
        let r = TableGrid { columns: Vec::new() };
        assert(r@.columns =~= Seq::<GridColumn>::empty());
        r
    }
}

impl TableGrid {
    /// Adds a column of the given width after those that the grid has.
    pub fn push_column(self, width: isize) -> (r: TableGrid)
        ensures
            r@.columns == self@.columns.push(GridColumn { width }),
    {
        let mut grid = self;
        let column = GridColumn { width };
        proof {
            lemma_views_push(grid.columns@, column);
        }
        grid.columns.push(column);
        grid
    }
}

impl XmlCodec for TableGrid {
    open spec fn accepts(name: Seq<char>) -> bool {
        name == "w:tblGrid"@
    }

    open spec fn vacant(v: TableGridView) -> bool {
        v.columns.len() == 0
    }

    open spec fn element_of(v: TableGridView) -> ElementView {
        ElementView {
            name: "w:tblGrid"@,
            attributes: Seq::empty(),
            text: Seq::empty(),
            children: children_of::<GridColumn>(v.columns),
            empty_tag: v.columns.len() == 0,
        }
    }

    open spec fn value_of(e: ElementView) -> Result<TableGridView, XmlError> {
        if e.name != "w:tblGrid"@ {
            Err(XmlError::MissingElement)
        } else {
            match values_of::<GridColumn>(e.children) {
                Ok(columns) => Ok(TableGridView { columns }),
                Err(err) => Err(err),
            }
        }
    }

    proof fn law_round_trip(v: TableGridView) {
        lemma_values_round_trip::<GridColumn>(v.columns);
        lemma_children_well_formed::<GridColumn>(v.columns);
    }

    proof fn law_suppression(v: TableGridView) {
    }

    fn accepts_name(name: &str) -> (r: bool) {
        same_text(name, "w:tblGrid")
    }

    fn to_element(&self) -> (e: Element) {
        let mut children: Vec<Element> = Vec::new();
        push_children(&mut children, &self.columns);
        let empty_tag = self.columns.len() == 0;
        let e = Element {
            name: String::from_str("w:tblGrid"),
            attributes: Vec::new(),
            text: String::new(),
            children,
            empty_tag,
        };
        proof {
            lemma_children_views(e);
            assert(e@.children =~= children_of::<GridColumn>(self@.columns));
            assert(e@.attributes =~= Seq::empty());
        }
        e
    }

    fn from_element(e: &Element) -> (r: Result<TableGrid, XmlError>) {
        if !same_text(e.name.as_str(), "w:tblGrid") {
            return Err(XmlError::MissingElement);
        }
        match read_children::<GridColumn>(e) {
            Ok(columns) => Ok(TableGrid { columns }),
            Err(err) => Err(err),
        }
    }
}

/// The properties of a cell and a paragraph have different tags.
pub proof fn lemma_cell_tags()
    ensures
        disjoint::<TableCellProperty, Paragraph>(),
        disjoint::<Paragraph, TableCellProperty>(),
{
    reveal_strlit("w:p");
    reveal_strlit("w:tcPr");
    assert("w:p"@.len() == 3);
    assert("w:tcPr"@.len() == 6);
}

/// A cell of a table, written as the element `w:tc` around its properties
/// and its paragraphs.
#[derive(Debug, Clone, PartialEq, Eq)]
pub struct TableCell {
    /// The properties of the cell.
    pub property: Option<TableCellProperty>,
    /// The paragraphs of the cell, in reading order.
    pub content: Vec<Paragraph>,
}

/// What a [`TableCell`] holds.
pub struct TableCellView {
    pub property: Option<TableCellProperty>,
    pub content: Seq<ParagraphView>,
}

impl View for TableCell {
    type V = TableCellView;

    open spec fn view(&self) -> TableCellView {
        TableCellView { property: self.property, content: views(self.content@) }
    }
}

impl Default for TableCell {
    /// The cell without properties and paragraphs.
    fn default() -> (r: TableCell)
        ensures
            r@ == (TableCellView { property: None, content: Seq::empty() }),
    {
        let r = TableCell { property: None, content: Vec::new() };
        assert(r@.content =~= Seq::<ParagraphView>::empty());
        r
    }
}

/// What can stand in a row as a cell: a cell, or a paragraph, which
/// becomes the cell that holds it.
pub trait IntoCell: Sized {
    /// What the cell holds that the value becomes.
    spec fn cell_view(self) -> TableCellView;

    /// Turns the value into a cell.
    fn into_cell(self) -> (r: TableCell)
        ensures
            r@ == self.cell_view(),
    ;
}

impl IntoCell for TableCell {
    open spec fn cell_view(self) -> TableCellView {
        self@
    }

    fn into_cell(self) -> (r: TableCell) {
        self
    }
}

impl IntoCell for Paragraph {
    open spec fn cell_view(self) -> TableCellView {
        TableCellView { property: None, content: seq![self@] }
    }

    fn into_cell(self) -> (r: TableCell) {
        TableCell::paragraph(self)
    }
}

impl TableCell {
    /// The cell that holds the paragraph and nothing else.
    pub fn paragraph(paragraph: Paragraph) -> (r: TableCell)
        ensures
            r@ == (TableCellView { property: None, content: seq![paragraph@] }),
    {
        let mut content: Vec<Paragraph> = Vec::new();
        content.push(paragraph);
        let r = TableCell { property: None, content };
        assert(r@.content =~= seq![paragraph@]);
        r
    }

    /// Sets the properties of the cell, in place of any that it had.
    pub fn property(self, property: TableCellProperty) -> (r: TableCell)
        ensures
            r@ == (TableCellView { property: Some(property), ..self@ }),
    {
        let mut cell = self;
        cell.property = Some(property);
        cell
    }

    /// Adds a paragraph after those that the cell has.
    pub fn push(self, paragraph: Paragraph) -> (r: TableCell)
        ensures
            r@ == (TableCellView { content: self@.content.push(paragraph@), ..self@ }),
    {
        let mut cell = self;
        proof {
            lemma_views_push(cell.content@, paragraph);
        }
        cell.content.push(paragraph);
        cell
    }
}

impl XmlCodec for TableCell {
    open spec fn accepts(name: Seq<char>) -> bool {
        name == "w:tc"@
    }

    open spec fn vacant(v: TableCellView) -> bool {
        v.property is None && v.content.len() == 0
    }

    open spec fn element_of(v: TableCellView) -> ElementView {
        ElementView {
            name: "w:tc"@,
            attributes: Seq::empty(),
            text: Seq::empty(),
            children: optional_child::<TableCellProperty>(v.property) + children_of::<Paragraph>(
                v.content,
            ),
            empty_tag: Self::vacant(v),
        }
    }

    open spec fn value_of(e: ElementView) -> Result<TableCellView, XmlError> {
        if e.name != "w:tc"@ {
            Err(XmlError::MissingElement)
        } else {
            match first_of::<TableCellProperty>(e.children) {
                Err(err) => Err(err),
                Ok(property) => match values_of::<Paragraph>(e.children) {
                    Err(err) => Err(err),
                    Ok(content) => Ok(TableCellView { property, content }),
                },
            }
        }
    }

    proof fn law_round_trip(v: TableCellView) {
        lemma_cell_tags();
        lemma_optional_then_children::<TableCellProperty, Paragraph>(v.property, v.content);
    }

    proof fn law_suppression(v: TableCellView) {
    }

    fn accepts_name(name: &str) -> (r: bool) {
        same_text(name, "w:tc")
    }

    fn to_element(&self) -> (e: Element) {
        let mut children: Vec<Element> = Vec::new();
        push_optional(&mut children, &self.property);
        push_children(&mut children, &self.content);
        let empty_tag = self.property.is_none() && self.content.len() == 0;
        let e = Element {
            name: String::from_str("w:tc"),
            attributes: Vec::new(),
            text: String::new(),
            children,
            empty_tag,
        };
        proof {
            lemma_children_views(e);
            assert(e@.children =~= Self::element_of(self@).children);
            assert(e@.attributes =~= Seq::empty());
        }
        e
    }

    fn from_element(e: &Element) -> (r: Result<TableCell, XmlError>) {
        if !same_text(e.name.as_str(), "w:tc") {
            return Err(XmlError::MissingElement);
        }
        let property = match read_optional::<TableCellProperty>(e) {
            Ok(value) => value,
            Err(err) => {
                return Err(err);
            },
        };
        match read_children::<Paragraph>(e) {
            Ok(content) => Ok(TableCell { property, content }),
            Err(err) => Err(err),
        }
    }
}

/// The properties of a row and a cell have different tags.
pub proof fn lemma_row_tags()
    ensures
        disjoint::<TableRowProperty, TableCell>(),
        disjoint::<TableCell, TableRowProperty>(),
{
    reveal_strlit("w:tc");
    reveal_strlit("w:trPr");
    assert("w:tc"@.len() == 4);
    assert("w:trPr"@.len() == 6);
}

/// A row of a table, written as the element `w:tr` around its properties
/// and its cells.
#[derive(Debug, Clone, PartialEq, Eq)]
pub struct TableRow {
    /// The properties of the row.
    pub property: Option<TableRowProperty>,
    /// The cells of the row, from the first to the last.
    pub cells: Vec<TableCell>,
}

/// What a [`TableRow`] holds.
pub struct TableRowView {
    pub property: Option<TableRowProperty>,
    pub cells: Seq<TableCellView>,
}

impl View for TableRow {
    type V = TableRowView;

    open spec fn view(&self) -> TableRowView {
        TableRowView { property: self.property, cells: views(self.cells@) }
    }
}

impl Default for TableRow {
    /// The row without properties and cells.
    fn default() -> (r: TableRow)
        ensures
            r@ == (TableRowView { property: None, cells: Seq::empty() }),
    {
        let r = TableRow { property: None, cells: Vec::new() };
        assert(r@.cells =~= Seq::<TableCellView>::empty());
        r
    }
}

impl TableRow {
    /// Sets the properties of the row, in place of any that it had.
    pub fn property(self, property: TableRowProperty) -> (r: TableRow)
        ensures
            r@ == (TableRowView { property: Some(property), ..self@ }),
    {
        let mut row = self;
        row.property = Some(property);
        row
    }

    /// Adds a cell after those that the row has. What is given is turned
    /// into a cell first: a cell stays what it is, a paragraph becomes the
    /// cell that holds it.
    pub fn push_cell<T: IntoCell>(self, cell: T) -> (r: TableRow)
        ensures
            r@ == (TableRowView { cells: self@.cells.push(cell.cell_view()), ..self@ }),
    {
        let mut row = self;
        let cell: TableCell = cell.into_cell();
        proof {
            lemma_views_push(row.cells@, cell);
        }
        row.cells.push(cell);
        row
    }
}

/// Order in a row: appending a cell appends its element after the
/// elements of what the row held and its text after their text, and the
/// row is read back with the cells in the order of the appending.
pub proof fn law_cells_in_order(row: TableRowView, cell: TableCellView)
    ensures
        ({
            let before = TableRow::element_of(row);
            let longer = TableRowView { cells: row.cells.push(cell), ..row };
            let after = TableRow::element_of(longer);
            &&& after.children == before.children.push(TableCell::element_of(cell))
            &&& rendered_all(after.children) == rendered_all(before.children) + rendered(
                TableCell::element_of(cell),
            )
            &&& TableRow::value_of(after) == Ok::<TableRowView, XmlError>(longer)
        }),
{
    let longer = TableRowView { cells: row.cells.push(cell), ..row };
    let own = optional_child::<TableRowProperty>(row.property);
    let e = TableCell::element_of(cell);
    lemma_children_push::<TableCell>(row.cells, cell);
    TableRow::law_round_trip(longer);
    assert(own + children_of::<TableCell>(row.cells).push(e) =~= (own + children_of::<
        TableCell,
    >(row.cells)).push(e));
    assert((own + children_of::<TableCell>(row.cells)).push(e).drop_last() =~= own
        + children_of::<TableCell>(row.cells));
}

impl XmlCodec for TableRow {
    open spec fn accepts(name: Seq<char>) -> bool {
        name == "w:tr"@
    }

    open spec fn vacant(v: TableRowView) -> bool {
        v.property is None && v.cells.len() == 0
    }

    open spec fn element_of(v: TableRowView) -> ElementView {
        ElementView {
            name: "w:tr"@,
            attributes: Seq::empty(),
            text: Seq::empty(),
            children: optional_child::<TableRowProperty>(v.property) + children_of::<TableCell>(
                v.cells,
            ),
            empty_tag: Self::vacant(v),
        }
    }

    open spec fn value_of(e: ElementView) -> Result<TableRowView, XmlError> {
        if e.name != "w:tr"@ {
            Err(XmlError::MissingElement)
        } else {
            match first_of::<TableRowProperty>(e.children) {
                Err(err) => Err(err),
                Ok(property) => match values_of::<TableCell>(e.children) {
                    Err(err) => Err(err),
                    Ok(cells) => Ok(TableRowView { property, cells }),
                },
            }
        }
    }

    proof fn law_round_trip(v: TableRowView) {
        lemma_row_tags();
        lemma_optional_then_children::<TableRowProperty, TableCell>(v.property, v.cells);
    }

    proof fn law_suppression(v: TableRowView) {
    }

    fn accepts_name(name: &str) -> (r: bool) {
        same_text(name, "w:tr")
    }

    fn to_element(&self) -> (e: Element) {
        let mut children: Vec<Element> = Vec::new();
        push_optional(&mut children, &self.property);
        push_children(&mut children, &self.cells);
        let empty_tag = self.property.is_none() && self.cells.len() == 0;
        let e = Element {
            name: String::from_str("w:tr"),
            attributes: Vec::new(),
            text: String::new(),
            children,
            empty_tag,
        };
        proof {
            lemma_children_views(e);
            assert(e@.children =~= Self::element_of(self@).children);
            assert(e@.attributes =~= Seq::empty());
        }
        e
    }

    fn from_element(e: &Element) -> (r: Result<TableRow, XmlError>) {
        if !same_text(e.name.as_str(), "w:tr") {
            return Err(XmlError::MissingElement);
        }
        let property = match read_optional::<TableRowProperty>(e) {
            Ok(value) => value,
            Err(err) => {
                return Err(err);
            },
        };
        match read_children::<TableCell>(e) {
            Ok(cells) => Ok(TableRow { property, cells }),
            Err(err) => Err(err),
        }
    }
}

/// The properties of a table, its grid and a row have three different
/// tags.
pub proof fn lemma_table_tags()
    ensures
        disjoint::<TableProperty, TableGrid>(),
        disjoint::<TableGrid, TableProperty>(),
        disjoint::<TableProperty, TableRow>(),
        disjoint::<TableRow, TableProperty>(),
        disjoint::<TableGrid, TableRow>(),
        disjoint::<TableRow, TableGrid>(),
{
    reveal_strlit("w:tr");
    reveal_strlit("w:tblPr");
    reveal_strlit("w:tblGrid");
    assert("w:tr"@.len() == 4);
    assert("w:tblPr"@.len() == 7);
    assert("w:tblGrid"@.len() == 9);
}

/// A table, written as the element `w:tbl` around its properties, its grid
/// and its rows.
#[derive(Debug, Clone, PartialEq, Eq)]
pub struct Table {
    /// The properties of the table.
    pub property: Option<TableProperty>,
    /// The grid of the table. Nothing holds its columns to the cells of
    /// the rows: that they agree is left to whoever builds the table.
    pub grid: Option<TableGrid>,
    /// The rows of the table, from the first to the last.
    pub rows: Vec<TableRow>,
}

/// What a [`Table`] holds.
pub struct TableView {
    pub property: Option<TableProperty>,
    pub grid: Option<TableGridView>,
    pub rows: Seq<TableRowView>,
}

impl View for Table {
    type V = TableView;

    open spec fn view(&self) -> TableView {
        TableView {
            property: self.property,
            grid: option_view(self.grid),
            rows: views(self.rows@),
        }
    }
}

impl Default for Table {
    /// The table without properties, grid and rows.
    fn default() -> (r: Table)
        ensures
            r@ == (TableView { property: None, grid: None, rows: Seq::empty() }),
    {
        let r = Table { property: None, grid: None, rows: Vec::new() };
        assert(r@.rows =~= Seq::<TableRowView>::empty());
        r
    }
}

impl Table {
    /// Sets the properties of the table, in place of any that it had.
    pub fn property(self, property: TableProperty) -> (r: Table)
        ensures
            r@ == (TableView { property: Some(property), ..self@ }),
    {
        let mut table = self;
        table.property = Some(property);
        table
    }

    /// Sets the grid of the table, in place of any that it had.
    pub fn grid(self, grid: TableGrid) -> (r: Table)
        ensures
            r@ == (TableView { grid: Some(grid@), ..self@ }),
    {
        let mut table = self;
        table.grid = Some(grid);
        table
    }

    /// Adds a row after those that the table has.
    pub fn push_row(self, row: TableRow) -> (r: Table)
        ensures
            r@ == (TableView { rows: self@.rows.push(row@), ..self@ }),
    {
        let mut table = self;
        proof {
            lemma_views_push(table.rows@, row);
        }
        table.rows.push(row);
        table
    }
}

/// Order in a table: appending a row appends its element after the
/// elements of what the table held and its text after their text, and the
/// table is read back with the rows in the order of the appending.
pub proof fn law_rows_in_order(table: TableView, row: TableRowView)
    ensures
        ({
            let before = Table::element_of(table);
            let longer = TableView { rows: table.rows.push(row), ..table };
            let after = Table::element_of(longer);
            &&& after.children == before.children.push(TableRow::element_of(row))
            &&& rendered_all(after.children) == rendered_all(before.children) + rendered(
                TableRow::element_of(row),
            )
            &&& Table::value_of(after) == Ok::<TableView, XmlError>(longer)
        }),
{
    let longer = TableView { rows: table.rows.push(row), ..table };
    let own = optional_child::<TableProperty>(table.property) + optional_child::<TableGrid>(
        table.grid,
    );
    let e = TableRow::element_of(row);
    lemma_children_push::<TableRow>(table.rows, row);
    Table::law_round_trip(longer);
    assert(own + children_of::<TableRow>(table.rows).push(e) =~= (own + children_of::<TableRow>(
        table.rows,
    )).push(e));
    assert((own + children_of::<TableRow>(table.rows)).push(e).drop_last() =~= own
        + children_of::<TableRow>(table.rows));
}

impl XmlCodec for Table {
    open spec fn accepts(name: Seq<char>) -> bool {
        name == "w:tbl"@
    }

    open spec fn vacant(v: TableView) -> bool {
        v.property is None && v.grid is None && v.rows.len() == 0
    }

    open spec fn element_of(v: TableView) -> ElementView {
        ElementView {
            name: "w:tbl"@,
            attributes: Seq::empty(),
            text: Seq::empty(),
            children: optional_child::<TableProperty>(v.property) + optional_child::<TableGrid>(
                v.grid,
            ) + children_of::<TableRow>(v.rows),
            empty_tag: Self::vacant(v),
        }
    }

    open spec fn value_of(e: ElementView) -> Result<TableView, XmlError> {
        if e.name != "w:tbl"@ {
            Err(XmlError::MissingElement)
        } else {
            match first_of::<TableProperty>(e.children) {
                Err(err) => Err(err),
                Ok(property) => match first_of::<TableGrid>(e.children) {
                    Err(err) => Err(err),
                    Ok(grid) => match values_of::<TableRow>(e.children) {
                        Err(err) => Err(err),
                        Ok(rows) => Ok(TableView { property, grid, rows }),
                    },
                },
            }
        }
    }

    proof fn law_round_trip(v: TableView) {
        let own = optional_child::<TableProperty>(v.property);
        let grid = optional_child::<TableGrid>(v.grid);
        let kids = children_of::<TableRow>(v.rows);
        let none = Seq::<ElementView>::empty();
        lemma_table_tags();
        lemma_others_optional::<TableProperty, TableGrid>(v.grid);
        lemma_others_children::<TableProperty, TableRow>(v.rows);
        lemma_none_accepted_concat::<TableProperty>(grid, kids);
        lemma_first_in_context::<TableProperty>(none, v.property, grid + kids);
        assert(none + own + (grid + kids) =~= own + grid + kids);
        lemma_others_optional::<TableGrid, TableProperty>(v.property);
        lemma_others_children::<TableGrid, TableRow>(v.rows);
        lemma_first_in_context::<TableGrid>(own, v.grid, kids);
        lemma_others_optional::<TableRow, TableProperty>(v.property);
        lemma_others_optional::<TableRow, TableGrid>(v.grid);
        lemma_none_accepted_concat::<TableRow>(own, grid);
        lemma_values_in_context::<TableRow>(own + grid, v.rows, none);
        assert(own + grid + kids + none =~= own + grid + kids);
        lemma_optional_well_formed::<TableProperty>(v.property);
        lemma_optional_well_formed::<TableGrid>(v.grid);
        lemma_children_well_formed::<TableRow>(v.rows);
        lemma_all_well_formed_concat(own, grid);
        lemma_all_well_formed_concat(own + grid, kids);
    }

    proof fn law_suppression(v: TableView) {
    }

    fn accepts_name(name: &str) -> (r: bool) {
        same_text(name, "w:tbl")
    }

    fn to_element(&self) -> (e: Element) {
        let mut children: Vec<Element> = Vec::new();
        push_optional(&mut children, &self.property);
        push_optional(&mut children, &self.grid);
        push_children(&mut children, &self.rows);
        let empty_tag = self.property.is_none() && self.grid.is_none() && self.rows.len() == 0;
        let e = Element {
            name: String::from_str("w:tbl"),
            attributes: Vec::new(),
            text: String::new(),
            children,
            empty_tag,
        };
        proof {
            lemma_children_views(e);
            assert(e@.children =~= Self::element_of(self@).children);
            assert(e@.attributes =~= Seq::empty());
        }
        e
    }

    fn from_element(e: &Element) -> (r: Result<Table, XmlError>) {
        if !same_text(e.name.as_str(), "w:tbl") {
            return Err(XmlError::MissingElement);
        }
        let property = match read_optional::<TableProperty>(e) {
            Ok(value) => value,
            Err(err) => {
                return Err(err);
            },
        };
        let grid = match read_optional::<TableGrid>(e) {
            Ok(value) => value,
            Err(err) => {
                return Err(err);
            },
        };
        match read_children::<TableRow>(e) {
            Ok(rows) => Ok(Table { property, grid, rows }),
            Err(err) => Err(err),
        }
    }
}

} // verus!
