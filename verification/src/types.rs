//! The types of the language, their names, and the types that names stand for.

use crate::text::text_is;
use vstd::prelude::*;
use vstd::string::*;

verus! {

broadcast use vstd::std_specs::vec::axiom_vec_index_decreases;

/// The types of the language.
#[derive(Debug, PartialEq, Eq)]
pub enum Type {
    Bool,
    Short,
    Int,
    Large,
    Float,
    String,
    Array(Box<Type>),
    Tuple(Vec<Type>),
    Void,
}

/// A type as contracts speak of it.
pub enum TypeView {
    Bool,
    Short,
    Int,
    Large,
    Float,
    String,
    Array(Box<TypeView>),
    Tuple(Seq<TypeView>),
    Void,
}

impl View for Type {
    type V = TypeView;

    open spec fn view(&self) -> TypeView {
        self.model()
    }
}

impl Type {
    /// The type as contracts speak of it.
    pub open spec fn model(&self) -> TypeView
        decreases self,
    {
        match self {
            Type::Bool => TypeView::Bool,
            Type::Short => TypeView::Short,
            Type::Int => TypeView::Int,
            Type::Large => TypeView::Large,
            Type::Float => TypeView::Float,
            Type::String => TypeView::String,
            Type::Array(e) => TypeView::Array(Box::new(e.model())),
            Type::Tuple(es) => TypeView::Tuple(
                Seq::new(
                    es.len() as nat,
                    |i: int|
                        if 0 <= i < es.len() {
                            es[i].model()
                        } else {
                            TypeView::Void
                        },
                ),
            ),
            Type::Void => TypeView::Void,
        }
    }
}

impl Clone for Type {
    fn clone(&self) -> (r: Type)
        ensures
            r@ == self@,
    {
        self.duplicate()
    }
}

impl Type {
    /// A copy of the type.
    pub fn duplicate(&self) -> (r: Type)
        ensures
            r@ == self@,
        decreases self,
    {
        match self {
            Type::Bool => Type::Bool,
            Type::Short => Type::Short,
            Type::Int => Type::Int,
            Type::Large => Type::Large,
            Type::Float => Type::Float,
            Type::String => Type::String,
            Type::Void => Type::Void,
            Type::Array(e) => Type::Array(Box::new(e.duplicate())),
            Type::Tuple(es) => {
                let mut out: Vec<Type> = Vec::new();
                let mut i: usize = 0;
                while i < es.len()
                    invariant
                        decreases_to!(self => es),
                        i <= es.len(),
                        out.len() == i,
                        forall|j: int| 0 <= j < i ==> out@[j]@ == es@[j]@,
                    decreases es.len() - i,
                {
                    out.push(es[i].duplicate());
                    i += 1;
                }
                let r = Type::Tuple(out);
                assert(r@->Tuple_0 =~= self@->Tuple_0);
                r
            },
        }
    }

    /// Whether the two types are the same type.
    pub fn same(&self, other: &Type) -> (r: bool)
        ensures
            r == (self@ == other@),
        decreases self,
    {
        match (self, other) {
            (Type::Bool, Type::Bool) => true,
            (Type::Short, Type::Short) => true,
            (Type::Int, Type::Int) => true,
            (Type::Large, Type::Large) => true,
            (Type::Float, Type::Float) => true,
            (Type::String, Type::String) => true,
            (Type::Void, Type::Void) => true,
            (Type::Array(a), Type::Array(b)) => a.same(b),
            (Type::Tuple(a), Type::Tuple(b)) => {
                if a.len() != b.len() {
                    assert(self@->Tuple_0.len() != other@->Tuple_0.len());
                    return false;
                }
                let mut i: usize = 0;
                while i < a.len()
                    invariant
                        decreases_to!(self => a),
                        self@ is Tuple,
                        other@ is Tuple,
                        self@->Tuple_0.len() == a.len(),
                        other@->Tuple_0.len() == b.len(),
                        forall|k: int| 0 <= k < a.len() ==> self@->Tuple_0[k] == a[k]@,
                        forall|k: int| 0 <= k < b.len() ==> other@->Tuple_0[k] == b[k]@,
                        i <= a.len(),
                        a.len() == b.len(),
                        forall|j: int| 0 <= j < i ==> a@[j]@ == b@[j]@,
                    decreases a.len() - i,
                {
                    if !a[i].same(&b[i]) {
                        assert(self@->Tuple_0[i as int] == a@[i as int]@);
                        assert(other@->Tuple_0[i as int] == b@[i as int]@);
                        return false;
                    }
                    i += 1;
                }
                assert(self@->Tuple_0 =~= other@->Tuple_0);
                true
            },
            _ => false,
        }
    }
}

/// The canonical name of a type. An array is named after its element, a
/// tuple after its elements in order.
pub open spec fn name_of_type(t: TypeView) -> Seq<char>
    decreases t, 0nat,
{
    match t {
        TypeView::Bool => "bool"@,
        TypeView::Short => "short"@,
        TypeView::Int => "int"@,
        TypeView::Large => "large"@,
        TypeView::Float => "float"@,
        TypeView::String => "string"@,
        TypeView::Void => "void"@,
        TypeView::Array(e) => name_of_type(*e) + "[]"@,
        TypeView::Tuple(es) => "("@ + joined_names(es, es.len()) + ")"@,
    }
}

/// The names of the first `n` types of `es`, separated by `, `.
pub open spec fn joined_names(es: Seq<TypeView>, n: nat) -> Seq<char>
    decreases es, n,
{
    if n == 0 || n > es.len() {
        Seq::empty()
    } else if n == 1 {
        name_of_type(es[0])
    } else {
        joined_names(es, (n - 1) as nat) + ", "@ + name_of_type(es[n - 1])
    }
}

/// The type that a name stands for; `None` for a text that names no type.
/// Tuples have no name of one word: their grammar is that of the declaration.
pub open spec fn type_of_name(s: Seq<char>) -> Option<TypeView>
    decreases s.len(),
{
    if s == "bool"@ {
        Some(TypeView::Bool)
    } else if s == "short"@ {
        Some(TypeView::Short)
    } else if s == "int"@ {
        Some(TypeView::Int)
    } else if s == "large"@ {
        Some(TypeView::Large)
    } else if s == "float"@ {
        Some(TypeView::Float)
    } else if s == "string"@ {
        Some(TypeView::String)
    } else if s == "void"@ {
        Some(TypeView::Void)
    } else if s.len() >= 2 && s[s.len() - 2] == '[' && s[s.len() - 1] == ']' {
        match type_of_name(s.take(s.len() - 2)) {
            Some(e) => Some(TypeView::Array(Box::new(e))),
            None => None,
        }
    } else {
        None
    }
}

impl TypeView {
    /// No tuple anywhere in the type.
    pub open spec fn tuple_free(self) -> bool
        decreases self,
    {
        match self {
            TypeView::Array(e) => e.tuple_free(),
            TypeView::Tuple(_) => false,
            _ => true,
        }
    }

    /// A tuple whose elements are no tuples, or no tuple at all.
    pub open spec fn flat(self) -> bool {
        match self {
            TypeView::Tuple(es) => forall|i: int| 0 <= i < es.len() ==> !(#[trigger] es[i] is Tuple),
            _ => true,
        }
    }
}

proof fn reveal_names()
    ensures
        "bool"@ == seq!['b', 'o', 'o', 'l'],
        "short"@ == seq!['s', 'h', 'o', 'r', 't'],
        "int"@ == seq!['i', 'n', 't'],
        "large"@ == seq!['l', 'a', 'r', 'g', 'e'],
        "float"@ == seq!['f', 'l', 'o', 'a', 't'],
        "string"@ == seq!['s', 't', 'r', 'i', 'n', 'g'],
        "void"@ == seq!['v', 'o', 'i', 'd'],
        "[]"@ == seq!['[', ']'],
{
    reveal_strlit("bool");
    reveal_strlit("short");
    reveal_strlit("int");
    reveal_strlit("large");
    reveal_strlit("float");
    reveal_strlit("string");
    reveal_strlit("void");
    reveal_strlit("[]");
    assert("bool"@ =~= seq!['b', 'o', 'o', 'l']);
    assert("short"@ =~= seq!['s', 'h', 'o', 'r', 't']);
    assert("int"@ =~= seq!['i', 'n', 't']);
    assert("large"@ =~= seq!['l', 'a', 'r', 'g', 'e']);
    assert("float"@ =~= seq!['f', 'l', 'o', 'a', 't']);
    assert("string"@ =~= seq!['s', 't', 'r', 'i', 'n', 'g']);
    assert("void"@ =~= seq!['v', 'o', 'i', 'd']);
    assert("[]"@ =~= seq!['[', ']']);
}

/// The views of a list of types, in order.
pub open spec fn type_views(ts: Seq<Type>) -> Seq<TypeView> {
    Seq::new(ts.len(), |i: int| ts[i]@)
}

/// The view of a tuple type is the tuple of the views of its elements.
pub proof fn lemma_tuple_view(t: Type)
    requires
        t is Tuple,
    ensures
        t@ == TypeView::Tuple(type_views(t->Tuple_0@)),
{
    assert(t@->Tuple_0 =~= type_views(t->Tuple_0@));
}

/// The type that a name stands for is no tuple and holds none.
pub proof fn lemma_named_type_is_no_tuple(s: Seq<char>)
    ensures
        type_of_name(s) matches Some(t) ==> t.tuple_free() && !(t is Tuple),
    decreases s.len(),
{
    if s.len() >= 2 {
        lemma_named_type_is_no_tuple(s.take(s.len() - 2));
    }
}

/// Reading the name of a type gives the type back, for every type without a tuple.
pub proof fn lemma_name_round_trip(t: TypeView)
    requires
        t.tuple_free(),
    ensures
        type_of_name(name_of_type(t)) == Some(t),
    decreases t,
{
    reveal_names();
    match t {
        TypeView::Array(e) => {
            lemma_name_round_trip(*e);
            let inner = name_of_type(*e);
            let s = name_of_type(t);
            assert(s == inner + seq!['[', ']']);
            assert(s.len() == inner.len() + 2);
            assert(s[s.len() - 1] == ']');
            assert(s[s.len() - 2] == '[');
            assert(s.take(s.len() - 2) =~= inner);
            assert(s != "bool"@);
            assert(s != "short"@);
            assert(s != "int"@);
            assert(s != "large"@);
            assert(s != "float"@);
            assert(s != "string"@);
            assert(s != "void"@);
        },
        TypeView::Tuple(_) => {},
        TypeView::Bool => {},
        TypeView::Short => {
            assert("short"@[0] != "bool"@[0]);
        },
        TypeView::Int => {
            assert("int"@.len() != "bool"@.len());
            assert("int"@.len() != "short"@.len());
        },
        TypeView::Large => {
            assert("large"@.len() != "bool"@.len());
            assert("large"@[0] != "short"@[0]);
            assert("large"@.len() != "int"@.len());
        },
        TypeView::Float => {
            assert("float"@.len() != "bool"@.len());
            assert("float"@[0] != "short"@[0]);
            assert("float"@.len() != "int"@.len());
            assert("float"@[0] != "large"@[0]);
        },
        TypeView::String => {
            assert("string"@.len() != "bool"@.len());
            assert("string"@.len() != "short"@.len());
            assert("string"@.len() != "int"@.len());
            assert("string"@.len() != "large"@.len());
            assert("string"@.len() != "float"@.len());
        },
        TypeView::Void => {
            assert("void"@[0] != "bool"@[0]);
            assert("void"@.len() != "short"@.len());
            assert("void"@.len() != "int"@.len());
            assert("void"@.len() != "large"@.len());
            assert("void"@.len() != "float"@.len());
            assert("void"@.len() != "string"@.len());
        },
    }
}

impl Type {
    /// The canonical name of the type.
    pub fn to_string(&self) -> (r: String)
        ensures
            r@ == name_of_type(self@),
        decreases self,
    {
        match self {
            Type::Bool => String::from_str("bool"),
            Type::Short => String::from_str("short"),
            Type::Int => String::from_str("int"),
            Type::Large => String::from_str("large"),
            Type::Float => String::from_str("float"),
            Type::String => String::from_str("string"),
            Type::Void => String::from_str("void"),
            Type::Array(e) => {
                let mut out = e.to_string();
                out.append("[]");
                out
            },
            Type::Tuple(es) => {
                let mut out = String::from_str("(");
                let ghost views = self@->Tuple_0;
                let mut i: usize = 0;
                while i < es.len()
                    invariant
                        decreases_to!(self => es),
                        i <= es.len(),
                        views.len() == es.len(),
                        forall|k: int| 0 <= k < es.len() ==> views[k] == es[k]@,
                        out@ == "("@ + joined_names(views, i as nat),
                    decreases es.len() - i,
                {
                    if i > 0 {
                        out.append(", ");
                    }
                    let name = es[i].to_string();
                    out.append(name.as_str());
                    proof {
                        let before = joined_names(views, i as nat);
                        let after = joined_names(views, (i + 1) as nat);
                        if i == 0 {
                            assert(before =~= Seq::<char>::empty());
                            assert(out@ =~= "("@ + after);
                        } else {
                            assert(after == before + ", "@ + name_of_type(views[i as int]));
                            assert(out@ =~= "("@ + after);
                        }
                    }
                    i += 1;
                }
                out.append(")");
                out
            },
        }
    }

    /// The type that `name` stands for, if it names one.
    pub fn from_string(name: &str) -> (r: Option<Type>)
        ensures
            r is Some <==> type_of_name(name@) is Some,
            r matches Some(t) ==> Some(t@) == type_of_name(name@),
        decreases name@.len(),
    {
        let owned = String::from_str(name);
        if text_is(&owned, "bool") {
            Some(Type::Bool)
        } else if text_is(&owned, "short") {
            Some(Type::Short)
        } else if text_is(&owned, "int") {
            Some(Type::Int)
        } else if text_is(&owned, "large") {
            Some(Type::Large)
        } else if text_is(&owned, "float") {
            Some(Type::Float)
        } else if text_is(&owned, "string") {
            Some(Type::String)
        } else if text_is(&owned, "void") {
            Some(Type::Void)
        } else {
            let n = name.unicode_len();
            if n >= 2 && name.get_char(n - 2) == '[' && name.get_char(n - 1) == ']' {
                let inner = name.substring_char(0, n - 2);
                assert(inner@ =~= name@.take(n - 2));
                match Type::from_string(inner) {
                    Some(e) => Some(Type::Array(Box::new(e))),
                    None => None,
                }
            } else {
                None
            }
        }
    }
}

} // verus!
