//! The schema of a file, seen with the logical types of its table.

use vstd::prelude::*;

verus! {

/// The type of a field. Nested types whose parts matter here are spelled out.
#[derive(Debug)]
pub enum DataType {
    Struct(Vec<Field>),
    List(Box<Field>),
    LargeList(Box<Field>),
    /// Any other type, by its name.
    Other(String),
}

/// A named and typed column.
#[derive(Debug)]
pub struct Field {
    pub name: String,
    pub data_type: DataType,
    pub nullable: bool,
    pub metadata: Vec<(String, String)>,
}

/// The fields of a file or a table, in order.
#[derive(Debug)]
pub struct Schema {
    pub fields: Vec<Field>,
}

/// What a `DataType` is.
pub enum DataTypeView {
    Struct(Seq<FieldView>),
    List(Box<FieldView>),
    LargeList(Box<FieldView>),
    Other(Seq<char>),
}

/// What a `Field` is.
pub struct FieldView {
    pub name: Seq<char>,
    pub data_type: DataTypeView,
    pub nullable: bool,
    pub metadata: Seq<(Seq<char>, Seq<char>)>,
}

impl DataType {
    /// The type itself.
    pub open spec fn view(&self) -> DataTypeView
        decreases self,
    {
        match self {
            DataType::Struct(fields) => DataTypeView::Struct(
                Seq::new(
                    fields@.len(),
                    |i: int|
                        if 0 <= i < fields@.len() {
                            fields@[i].view()
                        } else {
                            arbitrary()
                        },
                ),
            ),
            DataType::List(field) => DataTypeView::List(Box::new(field.view())),
            DataType::LargeList(field) => DataTypeView::LargeList(Box::new(field.view())),
            DataType::Other(name) => DataTypeView::Other(name@),
        }
    }

    /// Returns a copy of the type.
    pub fn duplicate(&self) -> (r: DataType)
        ensures
            r@ == self@,
        decreases self,
    {
        match self {
            DataType::Struct(fields) => {
                let mut out: Vec<Field> = Vec::new();
                let mut i: usize = 0;
                while i < fields.len()
                    invariant
                        0 <= i <= fields.len(),
                        *self == DataType::Struct(*fields),
                        out.len() == i,
                        forall|j: int| 0 <= j < i ==> (#[trigger] out@[j])@ == fields@[j]@,
                    decreases fields.len() - i,
                {
                    let field = &fields[i];
                    assert(decreases_to!(*self => self->Struct_0));
                    assert(decreases_to!(fields@ => fields@[i as int]));
                    let copy = field.duplicate();
                    out.push(copy);
                    i += 1;
                }
                let r = DataType::Struct(out);
                assert(r@->Struct_0 =~= self@->Struct_0);
                r
            },
            DataType::List(field) => DataType::List(Box::new(field.duplicate())),
            DataType::LargeList(field) => DataType::LargeList(Box::new(field.duplicate())),
            DataType::Other(name) => DataType::Other(name.clone()),
        }
    }
}

/// What a field's metadata is.
pub open spec fn metadata_view(metadata: Seq<(String, String)>) -> Seq<(Seq<char>, Seq<char>)> {
    Seq::new(metadata.len(), |i: int| (metadata[i].0@, metadata[i].1@))
}

fn duplicate_metadata(metadata: &Vec<(String, String)>) -> (r: Vec<(String, String)>)
    ensures
        metadata_view(r@) == metadata_view(metadata@),
{
    let mut out: Vec<(String, String)> = Vec::new();
    let mut i: usize = 0;
    while i < metadata.len()
        invariant
            0 <= i <= metadata.len(),
            out.len() == i,
            forall|j: int|
                0 <= j < i ==> (#[trigger] out@[j]).0@ == metadata@[j].0@ && out@[j].1@
                    == metadata@[j].1@,
        decreases metadata.len() - i,
    {
        out.push((metadata[i].0.clone(), metadata[i].1.clone()));
        i += 1;
    }
    assert(metadata_view(out@) =~= metadata_view(metadata@));
    out
}

impl Field {
    /// The field itself.
    pub open spec fn view(&self) -> FieldView
        decreases self,
    {
        FieldView {
            name: self.name@,
            data_type: self.data_type.view(),
            nullable: self.nullable,
            metadata: metadata_view(self.metadata@),
        }
    }

    /// Returns a copy of the field.
    pub fn duplicate(&self) -> (r: Field)
        ensures
            r@ == self@,
        decreases self,
    {
        Field {
            name: self.name.clone(),
            data_type: self.data_type.duplicate(),
            nullable: self.nullable,
            metadata: duplicate_metadata(&self.metadata),
        }
    }
}

/// What a list of fields is.
pub open spec fn fields_view(fields: Seq<Field>) -> Seq<FieldView> {
    Seq::new(fields.len(), |i: int| fields[i]@)
}

/// Returns copies of the fields.
pub fn duplicate_fields(fields: &Vec<Field>) -> (r: Vec<Field>)
    ensures
        fields_view(r@) == fields_view(fields@),
{
    let mut out: Vec<Field> = Vec::new();
    let mut i: usize = 0;
    while i < fields.len()
        invariant
            0 <= i <= fields.len(),
            out.len() == i,
            forall|j: int| 0 <= j < i ==> (#[trigger] out@[j])@ == fields@[j]@,
        decreases fields.len() - i,
    {
        out.push(fields[i].duplicate());
        i += 1;
    }
    assert(fields_view(out@) =~= fields_view(fields@));
    out
}

/// The first field of that name.
pub open spec fn find_field(fields: Seq<FieldView>, name: Seq<char>) -> Option<FieldView>
    decreases fields.len(),
{
    if fields.len() == 0 {
        None
    } else if fields[0].name == name {
        Some(fields[0])
    } else {
        find_field(fields.drop_first(), name)
    }
}

/// The type of a physical field with the logical type of the table's field where both are the
/// same kind of nesting, and the table's type otherwise. The elements of a list and the members
/// of a struct keep their physical names and nullability.
pub open spec fn merged_type(physical: FieldView, table: FieldView) -> DataTypeView
    decreases physical,
{
    match (physical.data_type, table.data_type) {
        (DataTypeView::Struct(p), DataTypeView::Struct(t)) => DataTypeView::Struct(
            Seq::new(
                p.len(),
                |i: int|
                    if 0 <= i < p.len() {
                        match find_field(t, p[i].name) {
                            Some(f) => FieldView {
                                name: p[i].name,
                                data_type: merged_type(p[i], f),
                                nullable: p[i].nullable,
                                metadata: Seq::empty(),
                            },
                            None => p[i],
                        }
                    } else {
                        arbitrary()
                    },
            ),
        ),
        (DataTypeView::List(p), DataTypeView::List(t)) => DataTypeView::List(
            Box::new(
                FieldView {
                    name: p.name,
                    data_type: merged_type(*p, *t),
                    nullable: p.nullable,
                    metadata: Seq::empty(),
                },
            ),
        ),
        (DataTypeView::LargeList(p), DataTypeView::LargeList(t)) => DataTypeView::LargeList(
            Box::new(
                FieldView {
                    name: p.name,
                    data_type: merged_type(*p, *t),
                    nullable: p.nullable,
                    metadata: Seq::empty(),
                },
            ),
        ),
        _ => table.data_type,
    }
}

/// A physical member field with the logical type that the table has for it, or as it is where
/// the table has no field of that name. Its metadata is dropped where its type is merged.
pub open spec fn merged_field(physical: FieldView, table: Seq<FieldView>) -> FieldView {
    match find_field(table, physical.name) {
        Some(f) => FieldView {
            name: physical.name,
            data_type: merged_type(physical, f),
            nullable: physical.nullable,
            metadata: Seq::empty(),
        },
        None => physical,
    }
}

/// A top-level field of a file with the logical type that the table has for it. Unlike a member
/// of a struct it keeps its metadata.
pub open spec fn logical_field(physical: FieldView, table: Seq<FieldView>) -> FieldView {
    match find_field(table, physical.name) {
        Some(f) => FieldView {
            name: physical.name,
            data_type: merged_type(physical, f),
            nullable: physical.nullable,
            metadata: physical.metadata,
        },
        None => physical,
    }
}

/// Returns the place of the first field of that name.
fn find_index(fields: &Vec<Field>, name: &String) -> (r: Option<usize>)
    ensures
        r matches Some(i) ==> i < fields.len() && find_field(fields_view(fields@), name@) == Some(
            fields@[i as int]@,
        ),
        r is None ==> find_field(fields_view(fields@), name@) is None,
{
    let mut i: usize = 0;
    assert(fields_view(fields@).skip(0) =~= fields_view(fields@));
    while i < fields.len()
        invariant
            0 <= i <= fields.len(),
            find_field(fields_view(fields@), name@) == find_field(
                fields_view(fields@).skip(i as int),
                name@,
            ),
        decreases fields.len() - i,
    {
        assert(fields_view(fields@).skip(i as int).drop_first() =~= fields_view(fields@).skip(
            i as int + 1,
        ));
        if fields[i].name == *name {
            return Some(i);
        }
        i += 1;
    }
    None
}

/// Merges the data types of two fields, preferring the logical type from the table field.
pub fn merge_field_types(physical_field: &Field, table_field: &Field) -> (r: DataType)
    ensures
        r@ == merged_type(physical_field@, table_field@),
    decreases physical_field,
{
    match (&physical_field.data_type, &table_field.data_type) {
        (DataType::Struct(phys_fields), DataType::Struct(table_fields)) => {
            let mut out: Vec<Field> = Vec::new();
            let mut i: usize = 0;
            while i < phys_fields.len()
                invariant
                    0 <= i <= phys_fields.len(),
                    physical_field.data_type == DataType::Struct(*phys_fields),
                    table_field.data_type == DataType::Struct(*table_fields),
                    out.len() == i,
                    forall|j: int|
                        0 <= j < i ==> (#[trigger] out@[j])@ == merged_field(
                            phys_fields@[j]@,
                            fields_view(table_fields@),
                        ),
                decreases phys_fields.len() - i,
            {
                let phys = &phys_fields[i];
                assert(decreases_to!(physical_field.data_type => physical_field.data_type->Struct_0));
                assert(decreases_to!(phys_fields@ => phys_fields@[i as int]));
                let merged = match find_index(table_fields, &phys.name) {
                    Some(k) => Field {
                        name: phys.name.clone(),
                        data_type: merge_field_types(phys, &table_fields[k]),
                        nullable: phys.nullable,
                        metadata: Vec::new(),
                    },
                    None => phys.duplicate(),
                };
                proof {
                    assert(metadata_view(Seq::empty()) =~= Seq::empty());
                }
                out.push(merged);
                i += 1;
            }
            let r = DataType::Struct(out);
            proof {
                assert(fields_view(table_fields@) =~= table_field@.data_type->Struct_0);
                assert(r@->Struct_0 =~= merged_type(physical_field@, table_field@)->Struct_0);
            }
            r
        },
        (DataType::List(phys), DataType::List(table)) => {
            proof {
                assert(metadata_view(Seq::empty()) =~= Seq::empty());
            }
            DataType::List(
                Box::new(
                    Field {
                        name: phys.name.clone(),
                        data_type: merge_field_types(phys, table),
                        nullable: phys.nullable,
                        metadata: Vec::new(),
                    },
                ),
            )
        },
        (DataType::LargeList(phys), DataType::LargeList(table)) => {
            proof {
                assert(metadata_view(Seq::empty()) =~= Seq::empty());
            }
            DataType::LargeList(
                Box::new(
                    Field {
                        name: phys.name.clone(),
                        data_type: merge_field_types(phys, table),
                        nullable: phys.nullable,
                        metadata: Vec::new(),
                    },
                ),
            )
        },
        _ => table_field.data_type.duplicate(),
    }
}

/// Merges two field collections, using logical types from `table_fields` where available. Falls
/// back to the physical field where no table field has its name.
pub fn merge_fields(physical_fields: &Vec<Field>, table_fields: &Vec<Field>) -> (r: Vec<Field>)
    ensures
        r.len() == physical_fields.len(),
        forall|i: int|
            0 <= i < r.len() ==> (#[trigger] r@[i])@ == merged_field(
                physical_fields@[i]@,
                fields_view(table_fields@),
            ),
{
    let mut out: Vec<Field> = Vec::new();
    let mut i: usize = 0;
    while i < physical_fields.len()
        invariant
            0 <= i <= physical_fields.len(),
            out.len() == i,
            forall|j: int|
                0 <= j < i ==> (#[trigger] out@[j])@ == merged_field(
                    physical_fields@[j]@,
                    fields_view(table_fields@),
                ),
        decreases physical_fields.len() - i,
    {
        let phys = &physical_fields[i];
        let merged = match find_index(table_fields, &phys.name) {
            Some(k) => Field {
                name: phys.name.clone(),
                data_type: merge_field_types(phys, &table_fields[k]),
                nullable: phys.nullable,
                metadata: Vec::new(),
            },
            None => phys.duplicate(),
        };
        proof {
            assert(metadata_view(Seq::empty()) =~= Seq::empty());
        }
        out.push(merged);
        i += 1;
    }
    out
}

/// Computes a logical file schema from the physical file schema and the table schema.
///
/// For each field in the physical file schema, looks up the corresponding field in the table
/// schema and uses its logical type.
pub fn compute_logical_file_schema(physical: &Schema, table: &Schema) -> (r: Schema)
    ensures
        r.fields.len() == physical.fields.len(),
        forall|i: int|
            0 <= i < r.fields.len() ==> (#[trigger] r.fields@[i])@ == logical_field(
                physical.fields@[i]@,
                fields_view(table.fields@),
            ),
{
    let mut out: Vec<Field> = Vec::new();
    let mut i: usize = 0;
    while i < physical.fields.len()
        invariant
            0 <= i <= physical.fields.len(),
            out.len() == i,
            forall|j: int|
                0 <= j < i ==> (#[trigger] out@[j])@ == logical_field(
                    physical.fields@[j]@,
                    fields_view(table.fields@),
                ),
        decreases physical.fields.len() - i,
    {
        let phys = &physical.fields[i];
        let merged = match find_index(&table.fields, &phys.name) {
            Some(k) => Field {
                name: phys.name.clone(),
                data_type: merge_field_types(phys, &table.fields[k]),
                nullable: phys.nullable,
                metadata: duplicate_metadata(&phys.metadata),
            },
            None => phys.duplicate(),
        };
        out.push(merged);
        i += 1;
    }
    Schema { fields: out }
}

/// Merging changes types only: a logical field keeps the name, the nullability and the metadata
/// that it has in the file.
pub proof fn law_logical_field_keeps_physical_attributes(
    physical: FieldView,
    table: Seq<FieldView>,
)
    ensures
        logical_field(physical, table).name == physical.name,
        logical_field(physical, table).nullable == physical.nullable,
        logical_field(physical, table).metadata == physical.metadata,
{
}

/// A table that has no field of a physical field's name leaves it as it is.
pub proof fn law_unknown_field_is_left_alone(physical: FieldView, table: Seq<FieldView>)
    requires
        forall|i: int| 0 <= i < table.len() ==> (#[trigger] table[i]).name != physical.name,
    ensures
        logical_field(physical, table) == physical,
        merged_field(physical, table) == physical,
    decreases table.len(),
{
    if table.len() > 0 {
        let rest = table.drop_first();
        assert forall|i: int| 0 <= i < rest.len() implies (#[trigger] rest[i]).name
            != physical.name by {
            assert(rest[i] == table[i + 1]);
        }
        law_unknown_field_is_left_alone(physical, rest);
    }
}

/// The field of a name is the first that has it, and there is none exactly if no field has it.
pub proof fn law_the_first_field_of_a_name_is_found(fields: Seq<FieldView>, name: Seq<char>)
    ensures
        match find_field(fields, name) {
            Some(f) => exists|i: int|
                0 <= i < fields.len() && #[trigger] fields[i] == f && f.name == name && (forall|
                    j: int,
                |
                    0 <= j < i ==> (#[trigger] fields[j]).name != name),
            None => forall|i: int| 0 <= i < fields.len() ==> (#[trigger] fields[i]).name != name,
        },
    decreases fields.len(),
{
    if fields.len() > 0 {
        let rest = fields.drop_first();
        law_the_first_field_of_a_name_is_found(rest, name);
        if fields[0].name != name {
            match find_field(rest, name) {
                Some(f) => {
                    let i = choose|i: int|
                        0 <= i < rest.len() && #[trigger] rest[i] == f && f.name == name && (forall|
                            j: int,
                        |
                            0 <= j < i ==> (#[trigger] rest[j]).name != name);
                    assert(fields[i + 1] == f);
                    assert forall|j: int| 0 <= j < i + 1 implies (#[trigger] fields[j]).name
                        != name by {
                        if j > 0 {
                            assert(fields[j] == rest[j - 1]);
                        }
                    }
                },
                None => {
                    assert forall|i: int| 0 <= i < fields.len() implies (#[trigger] fields[i]).name
                        != name by {
                        if i > 0 {
                            assert(fields[i] == rest[i - 1]);
                        }
                    }
                },
            }
        }
    }
}

/// Whether both types are structs, lists or large lists.
pub open spec fn nested_alike(a: DataTypeView, b: DataTypeView) -> bool {
    (a is Struct && b is Struct) || (a is List && b is List) || (a is LargeList && b is LargeList)
}

/// A column that the file and the table do not nest alike has the type that the table has for it.
pub proof fn law_the_type_of_the_table_wins(physical: FieldView, table: FieldView)
    requires
        !nested_alike(physical.data_type, table.data_type),
    ensures
        merged_type(physical, table) == table.data_type,
{
}

/// Whether a field has the type that merging gives it, in all its parts: nested fields that the
/// table nests alike have the names and the nullability that they have in the file, and any other
/// part has the type of the table. A member that the table does not have is as it is in the file.
pub open spec fn merges(merged: DataTypeView, physical: DataTypeView, table: DataTypeView) -> bool
    decreases physical,
{
    match (physical, table) {
        (DataTypeView::Struct(p), DataTypeView::Struct(t)) => merged matches DataTypeView::Struct(m)
            && m.len() == p.len() && (forall|i: int|
            #![trigger m[i]]
            0 <= i < p.len() ==> m[i].name == p[i].name && m[i].nullable == p[i].nullable && (
            member_merges(m[i], p[i], t))),
        (DataTypeView::List(p), DataTypeView::List(t)) => merged matches DataTypeView::List(m)
            && m.name == p.name && m.nullable == p.nullable && merges(
            m.data_type,
            p.data_type,
            t.data_type,
        ),
        (DataTypeView::LargeList(p), DataTypeView::LargeList(t)) => {
            merged matches DataTypeView::LargeList(m) && m.name == p.name && m.nullable
                == p.nullable && merges(m.data_type, p.data_type, t.data_type)
        },
        _ => merged == table,
    }
}

/// Whether a member has the type that merging gives it: by the first member of its name that the
/// table has, if there is one.
pub open spec fn member_merges(merged: FieldView, physical: FieldView, table: Seq<FieldView>) -> bool
    decreases physical,
{
    ||| exists|k: int|
        #![trigger table[k]]
        0 <= k < table.len() && table[k].name == physical.name && (forall|j: int|
            0 <= j < k ==> (#[trigger] table[j]).name != physical.name) && merges(
            merged.data_type,
            physical.data_type,
            table[k].data_type,
        )
    ||| (forall|k: int| 0 <= k < table.len() ==> (#[trigger] table[k]).name != physical.name)
        && merged == physical
}

/// Merging takes the nesting, the names and the nullability of the file and the types of the table,
/// all the way down.
pub proof fn law_merging_goes_all_the_way_down(physical: FieldView, table: FieldView)
    ensures
        merges(merged_type(physical, table), physical.data_type, table.data_type),
    decreases physical,
{
    match (physical.data_type, table.data_type) {
        (DataTypeView::Struct(p), DataTypeView::Struct(t)) => {
            let m = merged_type(physical, table)->Struct_0;
            assert forall|i: int|
                #![trigger m[i]]
                0 <= i < p.len() implies m[i].name == p[i].name && m[i].nullable == p[i].nullable
                && (member_merges(m[i], p[i], t)) by {
                law_the_first_field_of_a_name_is_found(t, p[i].name);
                if let Some(f) = find_field(t, p[i].name) {
                    law_merging_goes_all_the_way_down(p[i], f);
                    let k = choose|k: int|
                        0 <= k < t.len() && #[trigger] t[k] == f && f.name == p[i].name && (forall|
                            j: int,
                        |
                            0 <= j < k ==> (#[trigger] t[j]).name != p[i].name);
                    assert(t[k] == f);
                }
            }
        },
        (DataTypeView::List(p), DataTypeView::List(t)) => {
            law_merging_goes_all_the_way_down(*p, *t);
        },
        (DataTypeView::LargeList(p), DataTypeView::LargeList(t)) => {
            law_merging_goes_all_the_way_down(*p, *t);
        },
        _ => {},
    }
}

/// A field of a file is merged with the first field of its name that the table has, whether it is a
/// column or a member of a struct. A column keeps its metadata; a member that is merged has none.
pub proof fn law_columns_and_members_are_merged_alike(physical: FieldView, table: Seq<FieldView>)
    ensures
        member_merges(merged_field(physical, table), physical, table),
        member_merges(logical_field(physical, table), physical, table),
        merged_field(physical, table).data_type == logical_field(physical, table).data_type,
        merged_field(physical, table).name == physical.name,
        merged_field(physical, table).nullable == physical.nullable,
        (exists|k: int| 0 <= k < table.len() && (#[trigger] table[k]).name == physical.name)
            ==> merged_field(physical, table).metadata.len() == 0,
{
    law_the_first_field_of_a_name_is_found(table, physical.name);
    if let Some(f) = find_field(table, physical.name) {
        law_merging_goes_all_the_way_down(physical, f);
        let k = choose|k: int|
            0 <= k < table.len() && #[trigger] table[k] == f && f.name == physical.name && (forall|
                j: int,
            |
                0 <= j < k ==> (#[trigger] table[j]).name != physical.name);
        assert(table[k] == f);
    }
}

} // verus!
