//! The field validator: checks that a variant's declared field names and the
//! placeholder names of its template form an exact bijection.
//!
//! Four checks run in order and the first failure is reported: a repeated
//! field name, a repeated placeholder name, a placeholder that is not a
//! declared field, and a declared field that no placeholder mentions. The
//! placeholder check deliberately runs before the field check: a variant
//! whose names disagree in both directions reports the unknown placeholder,
//! the name a reader can see in the template.

use vstd::prelude::*;

verus! {

/// Why a variant's declared fields and its template's placeholders do not
/// form a bijection.
#[derive(Debug, PartialEq, Eq)]
pub enum ValidationError {
    /// A declared field name that no placeholder in the template mentions.
    FieldNotInTemplate(String),
    /// A placeholder name in the template that is not a declared field.
    PlaceholderNotAField(String),
    /// A name that occurs twice among the fields or among the placeholders.
    DuplicateName(String),
}

/// The mathematical shape of a [`ValidationError`], over character sequences.
pub ghost enum ValidationErrorView {
    FieldNotInTemplate(Seq<char>),
    PlaceholderNotAField(Seq<char>),
    DuplicateName(Seq<char>),
}

impl View for ValidationError {
    type V = ValidationErrorView;

    open spec fn view(&self) -> ValidationErrorView {
        match self {
            ValidationError::FieldNotInTemplate(n) => ValidationErrorView::FieldNotInTemplate(n@),
            ValidationError::PlaceholderNotAField(n) => ValidationErrorView::PlaceholderNotAField(
                n@,
            ),
            ValidationError::DuplicateName(n) => ValidationErrorView::DuplicateName(n@),
        }
    }
}

/// The views of a sequence of owned names.
pub open spec fn names_view(ns: Seq<String>) -> Seq<Seq<char>> {
    ns.map_values(|s: String| s@)
}

/// Whether `x` occurs among `names`.
pub open spec fn name_in(names: Seq<Seq<char>>, x: Seq<char>) -> bool {
    exists|i: int| 0 <= i < names.len() && names[i] == x
}

/// No name occurs twice.
pub open spec fn distinct_names(names: Seq<Seq<char>>) -> bool {
    forall|i: int, j: int| 0 <= i < j < names.len() ==> names[i] != names[j]
}

/// Every name of `a` occurs among `b`.
pub open spec fn names_within(a: Seq<Seq<char>>, b: Seq<Seq<char>>) -> bool {
    forall|i: int| 0 <= i < a.len() ==> name_in(b, a[i])
}

/// The first name, scanning from index `j`, that repeats an earlier one.
pub open spec fn first_duplicate_from(names: Seq<Seq<char>>, j: int) -> Option<Seq<char>>
    decreases names.len() - j,
{
    if j < 0 || j >= names.len() {
        None::<Seq<char>>
    } else if name_in(names.take(j), names[j]) {
        Some(names[j])
    } else {
        first_duplicate_from(names, j + 1)
    }
}

/// The first name that repeats an earlier one, if any.
pub open spec fn first_duplicate(names: Seq<Seq<char>>) -> Option<Seq<char>> {
    first_duplicate_from(names, 0)
}

/// The first of `names`, scanning from index `j`, that does not occur in
/// `other`.
pub open spec fn first_missing_from(
    names: Seq<Seq<char>>,
    other: Seq<Seq<char>>,
    j: int,
) -> Option<Seq<char>>
    decreases names.len() - j,
{
    if j < 0 || j >= names.len() {
        None::<Seq<char>>
    } else if !name_in(other, names[j]) {
        Some(names[j])
    } else {
        first_missing_from(names, other, j + 1)
    }
}

/// The first of `names` that does not occur in `other`, if any.
pub open spec fn first_missing(names: Seq<Seq<char>>, other: Seq<Seq<char>>) -> Option<
    Seq<char>,
> {
    first_missing_from(names, other, 0)
}

/// The outcome the validator owes: the first failure in its check order, or
/// `None` when the fields and the placeholders form an exact bijection.
pub open spec fn spec_validate(
    placeholders: Seq<Seq<char>>,
    fields: Seq<Seq<char>>,
) -> Option<ValidationErrorView> {
    match first_duplicate(fields) {
        Some(n) => Some(ValidationErrorView::DuplicateName(n)),
        None => match first_duplicate(placeholders) {
            Some(n) => Some(ValidationErrorView::DuplicateName(n)),
            None => match first_missing(placeholders, fields) {
                Some(n) => Some(ValidationErrorView::PlaceholderNotAField(n)),
                None => match first_missing(fields, placeholders) {
                    Some(n) => Some(ValidationErrorView::FieldNotInTemplate(n)),
                    None => None::<ValidationErrorView>,
                },
            },
        },
    }
}

/// No first duplicate means no duplicate at all, and the other way round.
proof fn lemma_first_duplicate_none(names: Seq<Seq<char>>, j: int)
    requires
        0 <= j <= names.len(),
    ensures
        first_duplicate_from(names, j) is None <==> (forall|k: int|
            j <= k < names.len() ==> !name_in(names.take(k), names[k])),
    decreases names.len() - j,
{
    if j < names.len() {
        lemma_first_duplicate_none(names, j + 1);
    }
}

/// No first missing name means every name occurs, and the other way round.
proof fn lemma_first_missing_none(names: Seq<Seq<char>>, other: Seq<Seq<char>>, j: int)
    requires
        0 <= j <= names.len(),
    ensures
        first_missing_from(names, other, j) is None <==> (forall|k: int|
            j <= k < names.len() ==> name_in(other, names[k])),
    decreases names.len() - j,
{
    if j < names.len() {
        lemma_first_missing_none(names, other, j + 1);
    }
}

/// The validator accepts exactly when the two name lists are each free of
/// repetition and name the same set: the strict bijection the schema relies
/// on.
pub proof fn lemma_validate_bijection(placeholders: Seq<Seq<char>>, fields: Seq<Seq<char>>)
    ensures
        spec_validate(placeholders, fields) is None <==> {
            &&& distinct_names(fields)
            &&& distinct_names(placeholders)
            &&& names_within(placeholders, fields)
            &&& names_within(fields, placeholders)
        },
{
    lemma_first_duplicate_none(fields, 0);
    lemma_first_duplicate_none(placeholders, 0);
    lemma_first_missing_none(placeholders, fields, 0);
    lemma_first_missing_none(fields, placeholders, 0);
    lemma_distinct_characterization(fields);
    lemma_distinct_characterization(placeholders);
}

/// A list is free of repetition exactly when no entry occurs among those
/// before it.
proof fn lemma_distinct_characterization(names: Seq<Seq<char>>)
    ensures
        distinct_names(names) <==> (forall|k: int|
            0 <= k < names.len() ==> !name_in(names.take(k), names[k])),
{
    if distinct_names(names) {
        assert forall|k: int| 0 <= k < names.len() implies !name_in(
            names.take(k),
            names[k],
        ) by {
            if name_in(names.take(k), names[k]) {
                let i = choose|i: int| 0 <= i < names.take(k).len() && names.take(k)[i]
                    == names[k];
                assert(names[i] == names[k]);
            }
        }
    }
    if forall|k: int| 0 <= k < names.len() ==> !name_in(names.take(k), names[k]) {
        assert forall|i: int, j: int| 0 <= i < j < names.len() implies names[i] != names[j] by {
            if names[i] == names[j] {
                assert(names.take(j)[i] == names[j]);
                assert(name_in(names.take(j), names[j]));
            }
        }
    }
}

/// Whether the owned name `x` occurs in `names`.
fn contains_name(names: &Vec<String>, x: &String) -> (r: bool)
    ensures
        r == name_in(names_view(names@), x@),
{
    let mut i: usize = 0;
    while i < names.len()
        invariant
            i <= names.len(),
            forall|k: int| 0 <= k < i ==> names@[k]@ != x@,
        decreases names.len() - i,
    {
        if names[i] == *x {
            proof {
                assert(names_view(names@)[i as int] == x@);
            }
            return true;
        }
        i = i + 1;
    }
    proof {
        assert forall|k: int| 0 <= k < names_view(names@).len() implies names_view(names@)[k]
            != x@ by {
            assert(names_view(names@)[k] == names@[k]@);
        }
    }
    false
}

/// The first name that repeats an earlier one, if any, as an owned copy.
fn find_first_duplicate(names: &Vec<String>) -> (r: Option<String>)
    ensures
        match r {
            Some(n) => first_duplicate(names_view(names@)) == Some(n@),
            None => first_duplicate(names_view(names@)) is None,
        },
{
    let ghost nv = names_view(names@);
    let mut j: usize = 0;
    while j < names.len()
        invariant
            j <= names.len(),
            nv == names_view(names@),
            first_duplicate(nv) == first_duplicate_from(nv, j as int),
        decreases names.len() - j,
    {
        let mut i: usize = 0;
        while i < j
            invariant
                i <= j < names.len(),
                nv == names_view(names@),
                first_duplicate(nv) == first_duplicate_from(nv, j as int),
                forall|k: int| 0 <= k < i ==> names@[k]@ != names@[j as int]@,
            decreases j - i,
        {
            if names[i] == names[j] {
                proof {
                    assert(nv.take(j as int)[i as int] == nv[j as int]);
                    assert(name_in(nv.take(j as int), nv[j as int]));
                    assert(first_duplicate_from(nv, j as int) == Some(nv[j as int]));
                    assert(nv[j as int] == names@[j as int]@);
                }
                return Some(names[j].clone());
            }
            i = i + 1;
        }
        proof {
            assert forall|k: int| 0 <= k < nv.take(j as int).len() implies nv.take(j as int)[k]
                != nv[j as int] by {
                assert(nv.take(j as int)[k] == names@[k]@);
            }
            assert(!name_in(nv.take(j as int), nv[j as int]));
        }
        j = j + 1;
    }
    None
}

/// The first of `names` that does not occur in `other`, if any, as an owned
/// copy.
fn find_first_missing(names: &Vec<String>, other: &Vec<String>) -> (r: Option<String>)
    ensures
        match r {
            Some(n) => first_missing(names_view(names@), names_view(other@)) == Some(n@),
            None => first_missing(names_view(names@), names_view(other@)) is None,
        },
{
    let ghost nv = names_view(names@);
    let ghost ov = names_view(other@);
    let mut j: usize = 0;
    while j < names.len()
        invariant
            j <= names.len(),
            nv == names_view(names@),
            ov == names_view(other@),
            first_missing(nv, ov) == first_missing_from(nv, ov, j as int),
        decreases names.len() - j,
    {
        if !contains_name(other, &names[j]) {
            return Some(names[j].clone());
        }
        j = j + 1;
    }
    None
}

/// Verifies that the placeholder names of a variant's template and its
/// declared field names form a set bijection, free of repetition on either
/// side; reports the first failure in the documented check order.
pub fn validate(placeholders: &Vec<String>, fields: &Vec<String>) -> (r: Result<
    (),
    ValidationError,
>)
    ensures
        match r {
            Ok(_) => spec_validate(names_view(placeholders@), names_view(fields@)) is None,
            Err(e) => spec_validate(names_view(placeholders@), names_view(fields@)) == Some(e@),
        },
{
    if let Some(n) = find_first_duplicate(fields) {
        return Err(ValidationError::DuplicateName(n));
    }
    if let Some(n) = find_first_duplicate(placeholders) {
        return Err(ValidationError::DuplicateName(n));
    }
    if let Some(n) = find_first_missing(placeholders, fields) {
        return Err(ValidationError::PlaceholderNotAField(n));
    }
    if let Some(n) = find_first_missing(fields, placeholders) {
        return Err(ValidationError::FieldNotInTemplate(n));
    }
    Ok(())
}

} // verus!
