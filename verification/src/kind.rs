use vstd::prelude::*;
use vstd::string::StringExecFns;

verus! {

broadcast use vstd::std_specs::vec::axiom_vec_index_decreases, vstd::seq::group_seq_axioms;

/// What a kind knows about the array shape: impossible, any array, or an
/// array of a known length whose element at index `i` has the `i`-th kind.
///
/// A known collection fixes its length: two known array kinds relate
/// (intersect, or stand in the superset order) only when their lengths agree.
/// This makes the structural subset test explicit where the shape algebra
/// would otherwise be ambiguous.
#[derive(Debug, PartialEq)]
pub enum CollectionKind {
    Never,
    Any,
    Known(Vec<Kind>),
}

/// What a kind knows about the object shape: impossible, any object, or an
/// object with exactly the listed fields, in source order.
///
/// Two known object kinds relate only when they list the same field names in
/// the same order.
#[derive(Debug, PartialEq)]
pub enum FieldsKind {
    Never,
    Any,
    Known(Vec<(String, Kind)>),
}

/// A set of possible value shapes: the scalar shapes are tracked as bits,
/// the two container shapes carry structural detail.
#[derive(Debug, PartialEq)]
pub struct Kind {
    pub null: bool,
    pub boolean: bool,
    pub integer: bool,
    pub float: bool,
    pub bytes: bool,
    pub timestamp: bool,
    pub regex: bool,
    pub array: CollectionKind,
    pub object: FieldsKind,
}

/// Mathematical model of [`CollectionKind`].
#[verifier::ext_equal]
pub enum CollectionKindV {
    Never,
    Any,
    Known(Seq<KindV>),
}

/// Mathematical model of [`FieldsKind`].
#[verifier::ext_equal]
pub enum FieldsKindV {
    Never,
    Any,
    Known(Seq<(Seq<char>, KindV)>),
}

/// Mathematical model of [`Kind`].
#[verifier::ext_equal]
pub struct KindV {
    pub null: bool,
    pub boolean: bool,
    pub integer: bool,
    pub float: bool,
    pub bytes: bool,
    pub timestamp: bool,
    pub regex: bool,
    pub array: CollectionKindV,
    pub object: FieldsKindV,
}

pub open spec fn kinds_view(elems: Vec<Kind>) -> Seq<KindV>
    decreases elems,
{
    Seq::new(
        elems@.len(),
        |i: int|
            if 0 <= i < elems@.len() {
                kind_view(elems@[i])
            } else {
                arbitrary()
            },
    )
}

pub open spec fn kind_fields_view(fields: Vec<(String, Kind)>) -> Seq<(Seq<char>, KindV)>
    decreases fields,
{
    Seq::new(
        fields@.len(),
        |i: int|
            if 0 <= i < fields@.len() {
                (fields@[i].0@, kind_view(fields@[i].1))
            } else {
                arbitrary()
            },
    )
}

pub open spec fn coll_view(c: CollectionKind) -> CollectionKindV
    decreases c,
{
    match c {
        CollectionKind::Never => CollectionKindV::Never,
        CollectionKind::Any => CollectionKindV::Any,
        CollectionKind::Known(elems) => CollectionKindV::Known(kinds_view(elems)),
    }
}

pub open spec fn fields_kind_view(f: FieldsKind) -> FieldsKindV
    decreases f,
{
    match f {
        FieldsKind::Never => FieldsKindV::Never,
        FieldsKind::Any => FieldsKindV::Any,
        FieldsKind::Known(fields) => FieldsKindV::Known(kind_fields_view(fields)),
    }
}

pub open spec fn kind_view(k: Kind) -> KindV
    decreases k,
{
    KindV {
        null: k.null,
        boolean: k.boolean,
        integer: k.integer,
        float: k.float,
        bytes: k.bytes,
        timestamp: k.timestamp,
        regex: k.regex,
        array: coll_view(k.array),
        object: fields_kind_view(k.object),
    }
}

impl View for CollectionKind {
    type V = CollectionKindV;

    open spec fn view(&self) -> CollectionKindV {
        coll_view(*self)
    }
}

impl View for FieldsKind {
    type V = FieldsKindV;

    open spec fn view(&self) -> FieldsKindV {
        fields_kind_view(*self)
    }
}

impl View for Kind {
    type V = KindV;

    open spec fn view(&self) -> KindV {
        kind_view(*self)
    }
}

/// Whether the scalar shapes of `a` and `b` overlap.
pub open spec fn scalars_intersect(a: KindV, b: KindV) -> bool {
    (a.null && b.null) || (a.boolean && b.boolean) || (a.integer && b.integer) || (a.float
        && b.float) || (a.bytes && b.bytes) || (a.timestamp && b.timestamp) || (a.regex && b.regex)
}

/// Whether some array value satisfies both `a` and `b`.
pub open spec fn coll_intersects(a: CollectionKindV, b: CollectionKindV) -> bool
    decreases a,
{
    match (a, b) {
        (CollectionKindV::Never, _) => false,
        (_, CollectionKindV::Never) => false,
        (CollectionKindV::Any, _) => true,
        (_, CollectionKindV::Any) => true,
        (CollectionKindV::Known(x), CollectionKindV::Known(y)) => x.len() == y.len() && (forall|
            i: int,
        |
            0 <= i < x.len() ==> kind_intersects(#[trigger] x[i], y[i])),
    }
}

/// Whether some object value satisfies both `a` and `b`.
pub open spec fn fields_intersect(a: FieldsKindV, b: FieldsKindV) -> bool
    decreases a,
{
    match (a, b) {
        (FieldsKindV::Never, _) => false,
        (_, FieldsKindV::Never) => false,
        (FieldsKindV::Any, _) => true,
        (_, FieldsKindV::Any) => true,
        (FieldsKindV::Known(x), FieldsKindV::Known(y)) => x.len() == y.len() && (forall|i: int|
            0 <= i < x.len() ==> (#[trigger] x[i]).0 == y[i].0 && kind_intersects(x[i].1, y[i].1)),
    }
}

/// Whether the shape sets of `a` and `b` overlap at all.
pub open spec fn kind_intersects(a: KindV, b: KindV) -> bool
    decreases a,
{
    scalars_intersect(a, b) || coll_intersects(a.array, b.array) || fields_intersect(
        a.object,
        b.object,
    )
}

/// Whether every array value satisfying `b` also satisfies `a`.
pub open spec fn coll_is_superset(a: CollectionKindV, b: CollectionKindV) -> bool
    decreases a,
{
    match (a, b) {
        (_, CollectionKindV::Never) => true,
        (CollectionKindV::Any, _) => true,
        (CollectionKindV::Never, _) => false,
        (CollectionKindV::Known(_), CollectionKindV::Any) => false,
        (CollectionKindV::Known(x), CollectionKindV::Known(y)) => x.len() == y.len() && (forall|
            i: int,
        |
            0 <= i < x.len() ==> kind_is_superset(#[trigger] x[i], y[i])),
    }
}

/// Whether every object value satisfying `b` also satisfies `a`.
pub open spec fn fields_is_superset(a: FieldsKindV, b: FieldsKindV) -> bool
    decreases a,
{
    match (a, b) {
        (_, FieldsKindV::Never) => true,
        (FieldsKindV::Any, _) => true,
        (FieldsKindV::Never, _) => false,
        (FieldsKindV::Known(_), FieldsKindV::Any) => false,
        (FieldsKindV::Known(x), FieldsKindV::Known(y)) => x.len() == y.len() && (forall|i: int|
            0 <= i < x.len() ==> (#[trigger] x[i]).0 == y[i].0 && kind_is_superset(
                x[i].1,
                y[i].1,
            )),
    }
}

/// Whether every shape possible under `b` is also possible under `a`.
pub open spec fn kind_is_superset(a: KindV, b: KindV) -> bool
    decreases a,
{
    (b.null ==> a.null) && (b.boolean ==> a.boolean) && (b.integer ==> a.integer) && (b.float
        ==> a.float) && (b.bytes ==> a.bytes) && (b.timestamp ==> a.timestamp) && (b.regex
        ==> a.regex) && coll_is_superset(a.array, b.array) && fields_is_superset(a.object, b.object)
}

impl CollectionKind {
    fn intersects(&self, other: &CollectionKind) -> (r: bool)
        ensures
            r == coll_intersects(self@, other@),
        decreases self,
    {
        match (self, other) {
            (CollectionKind::Never, _) => false,
            (_, CollectionKind::Never) => false,
            (CollectionKind::Any, _) => true,
            (_, CollectionKind::Any) => true,
            (CollectionKind::Known(x), CollectionKind::Known(y)) => {
                if x.len() != y.len() {
                    return false;
                }
                proof {
                    assert(decreases_to!(*self => *x));
                }
                let mut i: usize = 0;
                while i < x.len()
                    invariant
                        i <= x.len(),
                        x@.len() == y@.len(),
                        self@ == CollectionKindV::Known(kinds_view(*x)),
                        other@ == CollectionKindV::Known(kinds_view(*y)),
                        decreases_to!(*self => *x),
                        forall|j: int|
                            0 <= j < i ==> kind_intersects(
                                #[trigger] kinds_view(*x)[j],
                                kinds_view(*y)[j],
                            ),
                    decreases x.len() - i,
                {
                    if !x[i].intersects(&y[i]) {
                        proof {
                            assert(!kind_intersects(
                                kinds_view(*x)[i as int],
                                kinds_view(*y)[i as int],
                            ));
                        }
                        return false;
                    }
                    i += 1;
                }
                true
            },
        }
    }

    fn is_superset(&self, other: &CollectionKind) -> (r: bool)
        ensures
            r == coll_is_superset(self@, other@),
        decreases self,
    {
        match (self, other) {
            (_, CollectionKind::Never) => true,
            (CollectionKind::Any, _) => true,
            (CollectionKind::Never, _) => false,
            (CollectionKind::Known(_), CollectionKind::Any) => false,
            (CollectionKind::Known(x), CollectionKind::Known(y)) => {
                if x.len() != y.len() {
                    return false;
                }
                proof {
                    assert(decreases_to!(*self => *x));
                }
                let mut i: usize = 0;
                while i < x.len()
                    invariant
                        i <= x.len(),
                        x@.len() == y@.len(),
                        self@ == CollectionKindV::Known(kinds_view(*x)),
                        other@ == CollectionKindV::Known(kinds_view(*y)),
                        decreases_to!(*self => *x),
                        forall|j: int|
                            0 <= j < i ==> kind_is_superset(
                                #[trigger] kinds_view(*x)[j],
                                kinds_view(*y)[j],
                            ),
                    decreases x.len() - i,
                {
                    if !x[i].is_superset(&y[i]) {
                        proof {
                            assert(!kind_is_superset(
                                kinds_view(*x)[i as int],
                                kinds_view(*y)[i as int],
                            ));
                        }
                        return false;
                    }
                    i += 1;
                }
                true
            },
        }
    }
}

impl FieldsKind {
    fn intersects(&self, other: &FieldsKind) -> (r: bool)
        ensures
            r == fields_intersect(self@, other@),
        decreases self,
    {
        match (self, other) {
            (FieldsKind::Never, _) => false,
            (_, FieldsKind::Never) => false,
            (FieldsKind::Any, _) => true,
            (_, FieldsKind::Any) => true,
            (FieldsKind::Known(x), FieldsKind::Known(y)) => {
                if x.len() != y.len() {
                    return false;
                }
                proof {
                    assert(decreases_to!(*self => *x));
                }
                let mut i: usize = 0;
                while i < x.len()
                    invariant
                        i <= x.len(),
                        x@.len() == y@.len(),
                        self@ == FieldsKindV::Known(kind_fields_view(*x)),
                        other@ == FieldsKindV::Known(kind_fields_view(*y)),
                        decreases_to!(*self => *x),
                        forall|j: int|
                            0 <= j < i ==> (#[trigger] kind_fields_view(*x)[j]).0
                                == kind_fields_view(*y)[j].0 && kind_intersects(
                                kind_fields_view(*x)[j].1,
                                kind_fields_view(*y)[j].1,
                            ),
                    decreases x.len() - i,
                {
                    if !x[i].0.eq(&y[i].0) {
                        proof {
                            assert(kind_fields_view(*x)[i as int].0
                                != kind_fields_view(*y)[i as int].0);
                        }
                        return false;
                    }
                    if !x[i].1.intersects(&y[i].1) {
                        proof {
                            assert(!kind_intersects(
                                kind_fields_view(*x)[i as int].1,
                                kind_fields_view(*y)[i as int].1,
                            ));
                        }
                        return false;
                    }
                    i += 1;
                }
                true
            },
        }
    }

    fn is_superset(&self, other: &FieldsKind) -> (r: bool)
        ensures
            r == fields_is_superset(self@, other@),
        decreases self,
    {
        match (self, other) {
            (_, FieldsKind::Never) => true,
            (FieldsKind::Any, _) => true,
            (FieldsKind::Never, _) => false,
            (FieldsKind::Known(_), FieldsKind::Any) => false,
            (FieldsKind::Known(x), FieldsKind::Known(y)) => {
                if x.len() != y.len() {
                    return false;
                }
                proof {
                    assert(decreases_to!(*self => *x));
                }
                let mut i: usize = 0;
                while i < x.len()
                    invariant
                        i <= x.len(),
                        x@.len() == y@.len(),
                        self@ == FieldsKindV::Known(kind_fields_view(*x)),
                        other@ == FieldsKindV::Known(kind_fields_view(*y)),
                        decreases_to!(*self => *x),
                        forall|j: int|
                            0 <= j < i ==> (#[trigger] kind_fields_view(*x)[j]).0
                                == kind_fields_view(*y)[j].0 && kind_is_superset(
                                kind_fields_view(*x)[j].1,
                                kind_fields_view(*y)[j].1,
                            ),
                    decreases x.len() - i,
                {
                    if !x[i].0.eq(&y[i].0) {
                        proof {
                            assert(kind_fields_view(*x)[i as int].0
                                != kind_fields_view(*y)[i as int].0);
                        }
                        return false;
                    }
                    if !x[i].1.is_superset(&y[i].1) {
                        proof {
                            assert(!kind_is_superset(
                                kind_fields_view(*x)[i as int].1,
                                kind_fields_view(*y)[i as int].1,
                            ));
                        }
                        return false;
                    }
                    i += 1;
                }
                true
            },
        }
    }
}

impl Kind {
    /// Whether the shape sets of `self` and `other` overlap at all.
    pub fn intersects(&self, other: &Kind) -> (r: bool)
        ensures
            r == kind_intersects(self@, other@),
        decreases self,
    {
        if self.null && other.null {
            return true;
        }
        if self.boolean && other.boolean {
            return true;
        }
        if self.integer && other.integer {
            return true;
        }
        if self.float && other.float {
            return true;
        }
        if self.bytes && other.bytes {
            return true;
        }
        if self.timestamp && other.timestamp {
            return true;
        }
        if self.regex && other.regex {
            return true;
        }
        if self.array.intersects(&other.array) {
            return true;
        }
        self.object.intersects(&other.object)
    }

    /// Whether every shape possible under `other` is also possible under
    /// `self`.
    pub fn is_superset(&self, other: &Kind) -> (r: bool)
        ensures
            r == kind_is_superset(self@, other@),
        decreases self,
    {
        if other.null && !self.null {
            return false;
        }
        if other.boolean && !self.boolean {
            return false;
        }
        if other.integer && !self.integer {
            return false;
        }
        if other.float && !self.float {
            return false;
        }
        if other.bytes && !self.bytes {
            return false;
        }
        if other.timestamp && !self.timestamp {
            return false;
        }
        if other.regex && !self.regex {
            return false;
        }
        if !self.array.is_superset(&other.array) {
            return false;
        }
        self.object.is_superset(&other.object)
    }
}

/// The kind with no possible shape at all.
pub open spec fn empty_kind() -> KindV {
    KindV {
        null: false,
        boolean: false,
        integer: false,
        float: false,
        bytes: false,
        timestamp: false,
        regex: false,
        array: CollectionKindV::Never,
        object: FieldsKindV::Never,
    }
}

impl Kind {
    fn scalar_base() -> (r: Kind)
        ensures
            r@ == empty_kind(),
    {
        Kind {
            null: false,
            boolean: false,
            integer: false,
            float: false,
            bytes: false,
            timestamp: false,
            regex: false,
            array: CollectionKind::Never,
            object: FieldsKind::Never,
        }
    }

    pub fn null() -> (r: Kind)
        ensures
            r@ == (KindV { null: true, ..empty_kind() }),
    {
        let mut k = Self::scalar_base();
        k.null = true;
        k
    }

    pub fn boolean() -> (r: Kind)
        ensures
            r@ == (KindV { boolean: true, ..empty_kind() }),
    {
        let mut k = Self::scalar_base();
        k.boolean = true;
        k
    }

    pub fn integer() -> (r: Kind)
        ensures
            r@ == (KindV { integer: true, ..empty_kind() }),
    {
        let mut k = Self::scalar_base();
        k.integer = true;
        k
    }

    pub fn float() -> (r: Kind)
        ensures
            r@ == (KindV { float: true, ..empty_kind() }),
    {
        let mut k = Self::scalar_base();
        k.float = true;
        k
    }

    pub fn bytes() -> (r: Kind)
        ensures
            r@ == (KindV { bytes: true, ..empty_kind() }),
    {
        let mut k = Self::scalar_base();
        k.bytes = true;
        k
    }

    pub fn timestamp() -> (r: Kind)
        ensures
            r@ == (KindV { timestamp: true, ..empty_kind() }),
    {
        let mut k = Self::scalar_base();
        k.timestamp = true;
        k
    }

    pub fn regex() -> (r: Kind)
        ensures
            r@ == (KindV { regex: true, ..empty_kind() }),
    {
        let mut k = Self::scalar_base();
        k.regex = true;
        k
    }

    /// The union of every shape.
    pub fn any() -> (r: Kind)
        ensures
            r@ == (KindV {
                null: true,
                boolean: true,
                integer: true,
                float: true,
                bytes: true,
                timestamp: true,
                regex: true,
                array: CollectionKindV::Any,
                object: FieldsKindV::Any,
            }),
    {
        Kind {
            null: true,
            boolean: true,
            integer: true,
            float: true,
            bytes: true,
            timestamp: true,
            regex: true,
            array: CollectionKind::Any,
            object: FieldsKind::Any,
        }
    }

    /// An array of a known length, element `i` having kind `elems[i]`.
    pub fn array(elems: Vec<Kind>) -> (r: Kind)
        ensures
            r@ == (KindV { array: CollectionKindV::Known(kinds_view(elems)), ..empty_kind() }),
    {
        let mut k = Self::scalar_base();
        k.array = CollectionKind::Known(elems);
        k
    }

    /// An array about whose elements nothing is known.
    pub fn any_array() -> (r: Kind)
        ensures
            r@ == (KindV { array: CollectionKindV::Any, ..empty_kind() }),
    {
        let mut k = Self::scalar_base();
        k.array = CollectionKind::Any;
        k
    }

    /// An object with exactly the listed fields, in source order.
    pub fn object(fields: Vec<(String, Kind)>) -> (r: Kind)
        ensures
            r@ == (KindV { object: FieldsKindV::Known(kind_fields_view(fields)), ..empty_kind() }),
    {
        let mut k = Self::scalar_base();
        k.object = FieldsKind::Known(fields);
        k
    }

    /// An object about whose fields nothing is known.
    pub fn any_object() -> (r: Kind)
        ensures
            r@ == (KindV { object: FieldsKindV::Any, ..empty_kind() }),
    {
        let mut k = Self::scalar_base();
        k.object = FieldsKind::Any;
        k
    }
}

impl KindV {
    /// How many distinct shape families the kind admits.
    pub open spec fn is_any_spec(self) -> bool {
        self.null && self.boolean && self.integer && self.float && self.bytes && self.timestamp
            && self.regex && self.array is Any && self.object is Any
    }

    pub open spec fn shape_count(self) -> int {
        (if self.null {
            1int
        } else {
            0int
        }) + (if self.boolean {
            1int
        } else {
            0int
        }) + (if self.integer {
            1int
        } else {
            0int
        }) + (if self.float {
            1int
        } else {
            0int
        }) + (if self.bytes {
            1int
        } else {
            0int
        }) + (if self.timestamp {
            1int
        } else {
            0int
        }) + (if self.regex {
            1int
        } else {
            0int
        }) + (if !(self.array is Never) {
            1int
        } else {
            0int
        }) + (if !(self.object is Never) {
            1int
        } else {
            0int
        })
    }
}

impl Kind {
    /// Whether the kind admits every shape.
    pub fn is_any(&self) -> (r: bool)
        ensures
            r == self@.is_any_spec(),
    {
        self.null && self.boolean && self.integer && self.float && self.bytes && self.timestamp
            && self.regex && matches!(self.array, CollectionKind::Any) && matches!(
            self.object,
            FieldsKind::Any,
        )
    }

    fn shape_count(&self) -> (r: u32)
        ensures
            r == self@.shape_count(),
    {
        let mut n: u32 = 0;
        if self.null {
            n = n + 1;
        }
        if self.boolean {
            n = n + 1;
        }
        if self.integer {
            n = n + 1;
        }
        if self.float {
            n = n + 1;
        }
        if self.bytes {
            n = n + 1;
        }
        if self.timestamp {
            n = n + 1;
        }
        if self.regex {
            n = n + 1;
        }
        if !matches!(self.array, CollectionKind::Never) {
            n = n + 1;
        }
        if !matches!(self.object, FieldsKind::Never) {
            n = n + 1;
        }
        n
    }

    /// Whether the kind admits exactly one shape family.
    pub fn is_exact(&self) -> (r: bool)
        ensures
            r == (self@.shape_count() == 1),
    {
        self.shape_count() == 1
    }

    pub fn is_null(&self) -> (r: bool)
        ensures
            r == (self@.null && self@.shape_count() == 1),
    {
        self.null && self.shape_count() == 1
    }

    pub fn is_boolean(&self) -> (r: bool)
        ensures
            r == (self@.boolean && self@.shape_count() == 1),
    {
        self.boolean && self.shape_count() == 1
    }

    pub fn is_integer(&self) -> (r: bool)
        ensures
            r == (self@.integer && self@.shape_count() == 1),
    {
        self.integer && self.shape_count() == 1
    }

    pub fn is_float(&self) -> (r: bool)
        ensures
            r == (self@.float && self@.shape_count() == 1),
    {
        self.float && self.shape_count() == 1
    }

    pub fn is_bytes(&self) -> (r: bool)
        ensures
            r == (self@.bytes && self@.shape_count() == 1),
    {
        self.bytes && self.shape_count() == 1
    }

    pub fn is_timestamp(&self) -> (r: bool)
        ensures
            r == (self@.timestamp && self@.shape_count() == 1),
    {
        self.timestamp && self.shape_count() == 1
    }

    pub fn is_array(&self) -> (r: bool)
        ensures
            r == (!(self@.array is Never) && self@.shape_count() == 1),
    {
        !matches!(self.array, CollectionKind::Never) && self.shape_count() == 1
    }

    pub fn is_object(&self) -> (r: bool)
        ensures
            r == (!(self@.object is Never) && self@.shape_count() == 1),
    {
        !matches!(self.object, FieldsKind::Never) && self.shape_count() == 1
    }
}

/// Appends `name` to a ` or `-separated list.
pub open spec fn display_part(acc: Seq<char>, name: Seq<char>, on: bool) -> Seq<char> {
    if on {
        if acc.len() == 0 {
            name
        } else {
            acc + " or "@ + name
        }
    } else {
        acc
    }
}

/// Human-readable rendering of a kind: `any` for the full lattice, else the
/// admitted shape names joined by ` or ` (byte-strings print as `string`),
/// or `none` when no shape is admitted.
pub open spec fn kind_display(k: KindV) -> Seq<char> {
    if k.is_any_spec() {
        "any"@
    } else {
        let parts = display_part(
            display_part(
                display_part(
                    display_part(
                        display_part(
                            display_part(
                                display_part(
                                    display_part(
                                        display_part(Seq::empty(), "null"@, k.null),
                                        "boolean"@,
                                        k.boolean,
                                    ),
                                    "integer"@,
                                    k.integer,
                                ),
                                "float"@,
                                k.float,
                            ),
                            "string"@,
                            k.bytes,
                        ),
                        "timestamp"@,
                        k.timestamp,
                    ),
                    "regex"@,
                    k.regex,
                ),
                "array"@,
                !(k.array is Never),
            ),
            "object"@,
            !(k.object is Never),
        );
        if parts.len() == 0 {
            "none"@
        } else {
            parts
        }
    }
}

fn push_display_part(out: &mut String, name: &str, on: bool, first: bool)
    requires
        name@.len() > 0,
        first == (old(out)@.len() == 0),
    ensures
        final(out)@ == display_part(old(out)@, name@, on),
        (final(out)@.len() == 0) == (first && !on),
{
    if on {
        if !first {
            out.append(" or ");
        }
        out.append(name);
        proof {
            assert(final(out)@ =~= display_part(old(out)@, name@, on));
        }
    }
}

impl Kind {
    /// Human-readable rendering; see [`kind_display`].
    pub fn display_string(&self) -> (r: String)
        ensures
            r@ == kind_display(self@),
    {
        proof {
            reveal_strlit("null");
            reveal_strlit("boolean");
            reveal_strlit("integer");
            reveal_strlit("float");
            reveal_strlit("string");
            reveal_strlit("timestamp");
            reveal_strlit("regex");
            reveal_strlit("array");
            reveal_strlit("object");
        }
        if self.is_any() {
            return String::from_str("any");
        }
        let mut out = String::new();
        let mut first: bool = true;
        push_display_part(&mut out, "null", self.null, first);
        first = first && !self.null;
        push_display_part(&mut out, "boolean", self.boolean, first);
        first = first && !self.boolean;
        push_display_part(&mut out, "integer", self.integer, first);
        first = first && !self.integer;
        push_display_part(&mut out, "float", self.float, first);
        first = first && !self.float;
        push_display_part(&mut out, "string", self.bytes, first);
        first = first && !self.bytes;
        push_display_part(&mut out, "timestamp", self.timestamp, first);
        first = first && !self.timestamp;
        push_display_part(&mut out, "regex", self.regex, first);
        first = first && !self.regex;
        let has_array = !matches!(self.array, CollectionKind::Never);
        push_display_part(&mut out, "array", has_array, first);
        first = first && !has_array;
        let has_object = !matches!(self.object, FieldsKind::Never);
        push_display_part(&mut out, "object", has_object, first);
        first = first && !has_object;
        if first {
            return String::from_str("none");
        }
        out
    }
}

} // verus!
// Deep copies and the kind of a literal value.
use crate::value::{Value, ValueV, value_view};

verus! {

impl CollectionKind {
    /// A structural copy with the same mathematical model.
    pub fn deep_clone(&self) -> (r: CollectionKind)
        ensures
            r@ == self@,
        decreases self,
    {
        match self {
            CollectionKind::Never => CollectionKind::Never,
            CollectionKind::Any => CollectionKind::Any,
            CollectionKind::Known(elems) => {
                proof {
                    assert(decreases_to!(*self => *elems));
                }
                let mut out: Vec<Kind> = Vec::new();
                let mut i: usize = 0;
                while i < elems.len()
                    invariant
                        i <= elems.len(),
                        out@.len() == i,
                        decreases_to!(*self => *elems),
                        forall|j: int| 0 <= j < i ==> kind_view(out@[j]) == kind_view(elems@[j]),
                    decreases elems.len() - i,
                {
                    let k = elems[i].deep_clone();
                    out.push(k);
                    i += 1;
                }
                proof {
                    assert(kinds_view(out) =~= kinds_view(*elems));
                }
                CollectionKind::Known(out)
            },
        }
    }
}

impl FieldsKind {
    /// A structural copy with the same mathematical model.
    pub fn deep_clone(&self) -> (r: FieldsKind)
        ensures
            r@ == self@,
        decreases self,
    {
        match self {
            FieldsKind::Never => FieldsKind::Never,
            FieldsKind::Any => FieldsKind::Any,
            FieldsKind::Known(fields) => {
                proof {
                    assert(decreases_to!(*self => *fields));
                }
                let mut out: Vec<(String, Kind)> = Vec::new();
                let mut i: usize = 0;
                while i < fields.len()
                    invariant
                        i <= fields.len(),
                        out@.len() == i,
                        decreases_to!(*self => *fields),
                        forall|j: int|
                            0 <= j < i ==> out@[j].0@ == fields@[j].0@ && kind_view(out@[j].1)
                                == kind_view(fields@[j].1),
                    decreases fields.len() - i,
                {
                    let key = fields[i].0.clone();
                    let k = fields[i].1.deep_clone();
                    out.push((key, k));
                    i += 1;
                }
                proof {
                    assert(kind_fields_view(out) =~= kind_fields_view(*fields));
                }
                FieldsKind::Known(out)
            },
        }
    }
}

impl Kind {
    /// A structural copy with the same mathematical model.
    pub fn deep_clone(&self) -> (r: Kind)
        ensures
            r@ == self@,
        decreases self,
    {
        Kind {
            null: self.null,
            boolean: self.boolean,
            integer: self.integer,
            float: self.float,
            bytes: self.bytes,
            timestamp: self.timestamp,
            regex: self.regex,
            array: self.array.deep_clone(),
            object: self.object.deep_clone(),
        }
    }
}

impl Clone for Kind {
    /// Clones are structural copies.
    fn clone(&self) -> (r: Kind)
        ensures
            r@ == self@,
    {
        self.deep_clone()
    }
}

/// The exact kind of a known value.
pub open spec fn kind_of_value(v: ValueV) -> KindV
    decreases v,
{
    match v {
        ValueV::Null => KindV { null: true, ..empty_kind() },
        ValueV::Boolean(_) => KindV { boolean: true, ..empty_kind() },
        ValueV::Integer(_) => KindV { integer: true, ..empty_kind() },
        ValueV::Bytes(_) => KindV { bytes: true, ..empty_kind() },
        ValueV::Array(vs) => KindV {
            array: CollectionKindV::Known(
                Seq::new(
                    vs.len(),
                    |i: int|
                        if 0 <= i < vs.len() {
                            kind_of_value(vs[i])
                        } else {
                            arbitrary()
                        },
                ),
            ),
            ..empty_kind()
        },
        ValueV::Object(fs) => KindV {
            object: FieldsKindV::Known(
                Seq::new(
                    fs.len(),
                    |i: int|
                        if 0 <= i < fs.len() {
                            (fs[i].0, kind_of_value(fs[i].1))
                        } else {
                            arbitrary()
                        },
                ),
            ),
            ..empty_kind()
        },
    }
}

/// Computes the exact kind of a value.
pub fn kind_of(v: &Value) -> (k: Kind)
    ensures
        k@ == kind_of_value(v@),
    decreases v,
{
    match v {
        Value::Null => Kind::null(),
        Value::Boolean(_) => Kind::boolean(),
        Value::Integer(_) => Kind::integer(),
        Value::Bytes(_) => Kind::bytes(),
        Value::Array(elems) => {
            proof {
                assert(decreases_to!(*v => *elems));
            }
            let mut out: Vec<Kind> = Vec::new();
            let mut i: usize = 0;
            while i < elems.len()
                invariant
                    i <= elems.len(),
                    out@.len() == i,
                    decreases_to!(*v => *elems),
                    forall|j: int|
                        0 <= j < i ==> kind_view(out@[j]) == kind_of_value(value_view(elems@[j])),
                decreases elems.len() - i,
            {
                proof {
                    assert(decreases_to!(*elems => elems@[i as int]));
                }
                let k = kind_of(&elems[i]);
                out.push(k);
                i += 1;
            }
            let r = Kind::array(out);
            proof {
                assert(r@.array->Known_0 =~= kind_of_value(v@).array->Known_0);
                assert(r@ =~= kind_of_value(v@));
            }
            r
        },
        Value::Object(fields) => {
            proof {
                assert(decreases_to!(*v => *fields));
            }
            let mut out: Vec<(String, Kind)> = Vec::new();
            let mut i: usize = 0;
            while i < fields.len()
                invariant
                    i <= fields.len(),
                    out@.len() == i,
                    decreases_to!(*v => *fields),
                    forall|j: int|
                        0 <= j < i ==> out@[j].0@ == fields@[j].0@ && kind_view(out@[j].1)
                            == kind_of_value(value_view(fields@[j].1)),
                decreases fields.len() - i,
            {
                proof {
                    assert(decreases_to!(*fields => fields@[i as int]));
                }
                let key = fields[i].0.clone();
                let k = kind_of(&fields[i].1);
                out.push((key, k));
                i += 1;
            }
            let r = Kind::object(out);
            proof {
                assert(r@.object->Known_0 =~= kind_of_value(v@).object->Known_0);
                assert(r@ =~= kind_of_value(v@));
            }
            r
        },
    }
}

} // verus!
verus! {

/// How a kind is described in a diagnostic: `any` stays bare, an exact
/// single shape reads `the exact type ...`, a set of shapes reads
/// `one of ...`.
pub open spec fn kind_description(k: KindV) -> Seq<char> {
    if k.is_any_spec() {
        kind_display(k)
    } else if k.shape_count() == 1 {
        "the exact type "@ + kind_display(k)
    } else {
        "one of "@ + kind_display(k)
    }
}

/// Appends the diagnostic description of `k` to `out`.
pub fn push_kind_description(k: &Kind, out: &mut String)
    ensures
        final(out)@ == old(out)@ + kind_description(k@),
{
    if k.is_any() {
        let d = k.display_string();
        out.append(d.as_str());
    } else if k.is_exact() {
        out.append("the exact type ");
        let d = k.display_string();
        out.append(d.as_str());
        proof {
            assert(final(out)@ =~= old(out)@ + kind_description(k@));
        }
    } else {
        out.append("one of ");
        let d = k.display_string();
        out.append(d.as_str());
        proof {
            assert(final(out)@ =~= old(out)@ + kind_description(k@));
        }
    }
}

} // verus!
