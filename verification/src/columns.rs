//! Table schemas: named, typed columns, and the choice of some of them.
use vstd::prelude::*;

use crate::text;
use crate::text::same_text;

verus! {

/// The type of a column.
#[derive(Clone, Copy, Debug, PartialEq, Eq, Structural)]
pub enum DataType {
    Boolean,
    Int32,
    Int64,
    Float32,
    Float64,
    Utf8,
    /// A type of the engine that no store returns, by a number of the engine's
    /// choice: a key of a base table can have one. Values are read for it as text.
    Other(usize),
}

/// A column of a table.
#[derive(Debug)]
pub struct Field {
    pub name: String,
    pub data_type: DataType,
    pub nullable: bool,
}

/// What a [`Field`] says.
pub struct FieldModel {
    pub name: Seq<char>,
    pub data_type: DataType,
    pub nullable: bool,
}

impl View for Field {
    type V = FieldModel;

    open spec fn view(&self) -> FieldModel {
        FieldModel { name: self.name@, data_type: self.data_type, nullable: self.nullable }
    }
}

/// What a list of fields says.
pub open spec fn models(fields: Seq<Field>) -> Seq<FieldModel> {
    Seq::new(fields.len(), |i: int| fields[i]@)
}

/// The names of a list of fields.
pub open spec fn names(fields: Seq<FieldModel>) -> Seq<Seq<char>> {
    Seq::new(fields.len(), |i: int| fields[i].name)
}

impl Field {
    pub fn new(name: &str, data_type: DataType, nullable: bool) -> (r: Self)
        ensures
            r@ == (FieldModel { name: name@, data_type, nullable }),
    {
        Field { name: name.to_owned(), data_type, nullable }
    }

    /// A copy of the field.
    pub fn copy(&self) -> (r: Self)
        ensures
            r@ == self@,
    {
        Field { name: self.name.clone(), data_type: self.data_type, nullable: self.nullable }
    }
}

/// A copy of a list of fields.
pub fn copy_fields(fields: &Vec<Field>) -> (r: Vec<Field>)
    ensures
        models(r@) == models(fields@),
{
    let mut r: Vec<Field> = Vec::new();
    let mut i: usize = 0;
    while i < fields.len()
        invariant
            i <= fields.len(),
            models(r@) == models(fields@).take(i as int),
        decreases fields.len() - i,
    {
        let ghost before = models(r@);
        r.push(fields[i].copy());
        assert(models(r@) == before.push(fields[i as int]@));
        i += 1;
    }
    assert(models(fields@).take(i as int) == models(fields@));
    r
}

/// The names of a list of fields.
pub fn field_names(fields: &Vec<Field>) -> (r: Vec<String>)
    ensures
        text::texts(r@) == names(models(fields@)),
{
    let mut r: Vec<String> = Vec::new();
    let mut i: usize = 0;
    while i < fields.len()
        invariant
            i <= fields.len(),
            text::texts(r@) == names(models(fields@)).take(i as int),
        decreases fields.len() - i,
    {
        let ghost before = text::texts(r@);
        r.push(fields[i].name.clone());
        assert(text::texts(r@) == before.push(fields[i as int].name@));
        i += 1;
    }
    assert(names(models(fields@)).take(i as int) == names(models(fields@)));
    r
}

/// The position of the first field of a name.
pub open spec fn position(fields: Seq<FieldModel>, name: Seq<char>) -> Option<int>
    decreases fields.len(),
{
    if fields.len() == 0 {
        None
    } else {
        match position(fields.drop_last(), name) {
            Some(k) => Some(k),
            None => if fields.last().name == name {
                Some(fields.len() - 1)
            } else {
                None
            },
        }
    }
}

/// A field of that name is there if and only if it has a position, and the
/// position is the first.
pub proof fn lemma_position(fields: Seq<FieldModel>, name: Seq<char>)
    ensures
        position(fields, name) is Some <==> names(fields).contains(name),
        position(fields, name) matches Some(k) ==> 0 <= k < fields.len() && fields[k].name == name
            && forall|m: int| 0 <= m < k ==> (#[trigger] fields[m]).name != name,
        position(fields, name) is None ==> forall|m: int|
            0 <= m < fields.len() ==> (#[trigger] fields[m]).name != name,
    decreases fields.len(),
{
    if fields.len() > 0 {
        let front = fields.drop_last();
        lemma_position(front, name);
        if names(fields).contains(name) {
            let m = choose|m: int| 0 <= m < fields.len() && names(fields)[m] == name;
            assert(fields[m].name == name);
            if m < front.len() {
                assert(names(front)[m] == name);
            }
        }
        if position(fields, name) is None {
            assert forall|m: int| 0 <= m < fields.len() implies (#[trigger] fields[m]).name
                != name by {
                if m < front.len() {
                    assert(front[m].name != name);
                }
            }
        } else {
            let k = position(fields, name)->0;
            assert(names(fields)[k] == name);
            assert forall|m: int| 0 <= m < k implies (#[trigger] fields[m]).name != name by {
                assert(front[m].name != name);
            }
        }
    }
}

/// The position of the first field of a name.
pub fn find_field(fields: &Vec<Field>, name: &str) -> (r: Option<usize>)
    ensures
        match r {
            Some(k) => k < fields.len() && position(models(fields@), name@) == Some(k as int),
            None => position(models(fields@), name@) is None,
        },
{
    let mut i: usize = 0;
    while i < fields.len()
        invariant
            i <= fields.len(),
            position(models(fields@).take(i as int), name@) is None,
        decreases fields.len() - i,
    {
        assert(models(fields@).take(i + 1).drop_last() == models(fields@).take(i as int));
        if same_text(fields[i].name.as_str(), name) {
            proof {
                lemma_position(models(fields@), name@);
                lemma_position(models(fields@).take(i as int), name@);
                assert(names(models(fields@))[i as int] == name@);
                let k = position(models(fields@), name@)->0;
                assert(models(fields@)[i as int].name == name@);
                if k < i {
                    assert(models(fields@).take(i as int)[k].name == name@);
                }
            }
            return Some(i);
        }
        i += 1;
    }
    assert(models(fields@).take(i as int) == models(fields@));
    None
}

/// Whether a field of that name is there.
pub fn has_field(fields: &Vec<Field>, name: &str) -> (r: bool)
    ensures
        r == names(models(fields@)).contains(name@),
{
    proof {
        lemma_position(models(fields@), name@);
    }
    find_field(fields, name).is_some()
}

/// A projection that asks for a column which is not there.
#[derive(Clone, Copy, Debug, PartialEq, Eq, Structural)]
pub struct ProjectionError {
    /// The first position asked for that is out of bounds.
    pub index: usize,
    /// The number of columns.
    pub columns: usize,
}

/// The first of the positions `idx` that is not below `n`.
pub open spec fn first_out_of_bounds(idx: Seq<usize>, n: nat) -> Option<usize>
    decreases idx.len(),
{
    if idx.len() == 0 {
        None
    } else if idx[0] >= n {
        Some(idx[0])
    } else {
        first_out_of_bounds(idx.skip(1), n)
    }
}

/// The columns at the positions `idx`.
pub open spec fn chosen<T>(columns: Seq<T>, idx: Seq<usize>) -> Seq<T> {
    Seq::new(idx.len(), |i: int| columns[idx[i] as int])
}

/// The columns that a projection leaves: all of them, or those at its positions.
pub open spec fn projected<T>(columns: Seq<T>, projection: Option<Seq<usize>>) -> Result<
    Seq<T>,
    ProjectionError,
> {
    match projection {
        None => Ok(columns),
        Some(idx) => match first_out_of_bounds(idx, columns.len()) {
            Some(k) => Err(ProjectionError { index: k, columns: columns.len() as usize }),
            None => Ok(chosen(columns, idx)),
        },
    }
}

/// The positions of an optional projection.
pub open spec fn positions(projection: Option<Vec<usize>>) -> Option<Seq<usize>> {
    match projection {
        Some(idx) => Some(idx@),
        None => None,
    }
}

/// Positions are in bounds if and only if none is the first out of bounds.
pub proof fn lemma_first_out_of_bounds(idx: Seq<usize>, n: nat)
    ensures
        first_out_of_bounds(idx, n) is None <==> forall|i: int|
            0 <= i < idx.len() ==> (#[trigger] idx[i]) < n,
    decreases idx.len(),
{
    if idx.len() > 0 {
        lemma_first_out_of_bounds(idx.skip(1), n);
        if first_out_of_bounds(idx, n) is None {
            assert forall|i: int| 0 <= i < idx.len() implies (#[trigger] idx[i]) < n by {
                if i > 0 {
                    assert(idx.skip(1)[i - 1] == idx[i]);
                }
            }
        } else if idx[0] < n {
            let i = choose|i: int| 0 <= i < idx.skip(1).len() && (#[trigger] idx.skip(1)[i]) >= n;
            assert(idx[i + 1] >= n);
        }
    }
}

/// The positions `idx`, once each is below `n`; else the first that is not.
pub fn check_projection(idx: &Vec<usize>, n: usize) -> (r: Result<(), ProjectionError>)
    ensures
        match r {
            Ok(_) => first_out_of_bounds(idx@, n as nat) is None && forall|i: int|
                0 <= i < idx.len() ==> (#[trigger] idx[i]) < n,
            Err(e) => first_out_of_bounds(idx@, n as nat) == Some(e.index) && e.columns == n,
        },
{
    let mut i: usize = 0;
    assert(idx@.skip(0) == idx@);
    while i < idx.len()
        invariant
            i <= idx.len(),
            first_out_of_bounds(idx@, n as nat) == first_out_of_bounds(
                idx@.skip(i as int),
                n as nat,
            ),
        decreases idx.len() - i,
    {
        assert(idx@.skip(i as int).skip(1) == idx@.skip(i + 1));
        if idx[i] >= n {
            return Err(ProjectionError { index: idx[i], columns: n });
        }
        i += 1;
    }
    proof {
        lemma_first_out_of_bounds(idx@, n as nat);
    }
    Ok(())
}

/// The fields that a projection leaves.
pub fn project_fields(fields: &Vec<Field>, projection: &Option<Vec<usize>>) -> (r: Result<
    Vec<Field>,
    ProjectionError,
>)
    ensures
        match r {
            Ok(v) => projected(models(fields@), positions(*projection))
                == Ok::<Seq<FieldModel>, ProjectionError>(models(v@)),
            Err(e) => projected(models(fields@), positions(*projection))
                == Err::<Seq<FieldModel>, ProjectionError>(e),
        },
{
    match projection {
        None => Ok(copy_fields(fields)),
        Some(idx) => {
            match check_projection(idx, fields.len()) {
                Err(e) => Err(e),
                Ok(_) => {
                    let mut r: Vec<Field> = Vec::new();
                    let mut i: usize = 0;
                    while i < idx.len()
                        invariant
                            i <= idx.len(),
                            forall|k: int| 0 <= k < idx.len() ==> (#[trigger] idx[k])
                                < fields.len(),
                            models(r@) == chosen(models(fields@), idx@).take(i as int),
                        decreases idx.len() - i,
                    {
                        let ghost before = models(r@);
                        r.push(fields[idx[i]].copy());
                        assert(models(r@) == before.push(fields[idx[i as int] as int]@));
                        i += 1;
                    }
                    assert(chosen(models(fields@), idx@).take(i as int) == chosen(
                        models(fields@),
                        idx@,
                    ));
                    Ok(r)
                },
            }
        },
    }
}

/// A projection leaves the columns at its positions, in the order in which it asks for
/// them, and all of them if there is none; where a position is out of bounds it fails
/// and names the first such position.
pub proof fn law_projections_choose<T>(columns: Seq<T>, idx: Seq<usize>)
    ensures
        projected(columns, None) == Ok::<Seq<T>, ProjectionError>(columns),
        match projected(columns, Some(idx)) {
            Ok(r) => r.len() == idx.len() && forall|i: int|
                0 <= i < idx.len() ==> (#[trigger] idx[i]) < columns.len() && r[i]
                    == columns[idx[i] as int],
            Err(e) => exists|k: int|
                0 <= k < idx.len() && e.index == #[trigger] idx[k] && idx[k] >= columns.len()
                    && forall|i: int| 0 <= i < k ==> (#[trigger] idx[i]) < columns.len(),
        },
        projected(columns, Some(idx)) matches Err(e) ==> e.columns == columns.len() as usize,
{
    lemma_first_out_of_bounds(idx, columns.len());
    if first_out_of_bounds(idx, columns.len()) is Some {
        lemma_first_out_at(idx, columns.len());
    }
}

proof fn lemma_first_out_at(idx: Seq<usize>, n: nat)
    requires
        first_out_of_bounds(idx, n) is Some,
    ensures
        exists|k: int|
            0 <= k < idx.len() && first_out_of_bounds(idx, n) == Some(#[trigger] idx[k]) && idx[k]
                >= n && forall|i: int| 0 <= i < k ==> (#[trigger] idx[i]) < n,
    decreases idx.len(),
{
    if idx[0] >= n {
        assert(first_out_of_bounds(idx, n) == Some(idx[0]));
    } else {
        let rest = idx.skip(1);
        lemma_first_out_at(rest, n);
        let k = choose|k: int|
            0 <= k < rest.len() && first_out_of_bounds(rest, n) == Some(#[trigger] rest[k]) && rest[k]
                >= n && forall|i: int| 0 <= i < k ==> (#[trigger] rest[i]) < n;
        assert(idx[k + 1] == rest[k]);
        assert forall|i: int| 0 <= i < k + 1 implies (#[trigger] idx[i]) < n by {
            if i > 0 {
                assert(rest[i - 1] == idx[i]);
            }
        }
    }
}

} // verus!
