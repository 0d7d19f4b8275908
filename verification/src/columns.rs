//! The backend column catalog the lowering engine consumes: an ordered
//! mapping of snake-cased field names to column references, plus the set
//! of primary-key names.

use vstd::prelude::*;

verus! {

/// The type family of a backend column, as the lowering and reflection
/// layers read it. `Varchar` stands for the backend's plain string type.
#[derive(Debug, PartialEq, Eq, Structural, Clone, Copy)]
pub enum SqlColumnType {
    Char,
    Varchar,
    Text,
    Json,
    JsonBinary,
    Array,
    Inet,
    Cidr,
    MacAddr,
    Custom,
    Enumeration,
    Integer,
    Unsigned,
    Year,
    BigInteger,
    BigUnsigned,
    SmallInteger,
    SmallUnsigned,
    TinyInteger,
    TinyUnsigned,
    Float,
    Double,
    Decimal,
    Money,
    Boolean,
    Date,
    Time,
    DateTime,
    Timestamp,
    Binary,
    VarBinary,
    Uuid,
    Unknown,
}

/// A column reference: the SQL identifier the backend uses for it, and its
/// type family.
#[derive(Debug, PartialEq)]
pub struct ColumnValue {
    pub column: String,
    pub def: SqlColumnType,
}

/// The primary-key column names of an entity.
#[derive(Debug, PartialEq)]
pub struct PrimaryKeys {
    p_keys: Vec<String>,
}

impl PrimaryKeys {
    /// The key names as a sequence of texts.
    pub closed spec fn view(self) -> Seq<Seq<char>> {
        self.p_keys@.map_values(|k: String| k@)
    }

    pub fn new(p_keys: Vec<String>) -> (r: PrimaryKeys)
        ensures
            r@ == p_keys@.map_values(|k: String| k@),
    {
        PrimaryKeys { p_keys }
    }

    /// The key names, in declaration order.
    pub fn keys(&self) -> (r: &Vec<String>)
        ensures
            r@.map_values(|k: String| k@) == self@,
    {
        &self.p_keys
    }
}

/// The ordered field-to-column mapping of an entity.
#[derive(Debug, PartialEq)]
pub struct ColumnList {
    keys: Vec<String>,
    values: Vec<ColumnValue>,
}

/// The contents of a column list: pairs of field name and column.
pub closed spec fn column_pairs(c: ColumnList) -> Seq<(Seq<char>, (Seq<char>, SqlColumnType))> {
    Seq::new(
        c.keys@.len(),
        |i: int| (c.keys@[i]@, (c.values@[i].column@, c.values@[i].def)),
    )
}

/// The first entry with the given field name, if any.
pub open spec fn find_key(
    pairs: Seq<(Seq<char>, (Seq<char>, SqlColumnType))>,
    k: Seq<char>,
    i: int,
) -> Option<int>
    decreases pairs.len() - i,
{
    if i < 0 || i >= pairs.len() {
        None
    } else if pairs[i].0 == k {
        Some(i)
    } else {
        find_key(pairs, k, i + 1)
    }
}

/// A found key lies within the pair list.
pub proof fn lemma_find_key_range(
    pairs: Seq<(Seq<char>, (Seq<char>, SqlColumnType))>,
    k: Seq<char>,
    j: int,
)
    ensures
        find_key(pairs, k, j) matches Some(i) ==> j <= i < pairs.len() && pairs[i].0 == k,
    decreases pairs.len() - j,
{
    if 0 <= j < pairs.len() && pairs[j].0 != k {
        lemma_find_key_range(pairs, k, j + 1);
    }
}

impl ColumnList {
    /// Both vectors pair up.
    pub closed spec fn wf(self) -> bool {
        self.keys@.len() == self.values@.len()
    }

    /// Build a catalog from field/column pairs, in order.
    pub fn from_pairs(pairs: Vec<(String, ColumnValue)>) -> (r: ColumnList)
        ensures
            r.wf(),
            column_pairs(r).len() == pairs@.len(),
            forall|i: int|
                0 <= i < pairs@.len() ==> #[trigger] column_pairs(r)[i] == (
                    pairs@[i].0@,
                    (pairs@[i].1.column@, pairs@[i].1.def),
                ),
    {
        let mut keys: Vec<String> = Vec::new();
        let mut values: Vec<ColumnValue> = Vec::new();
        let mut src = pairs;
        while src.len() > 0
            invariant
                keys@.len() == values@.len(),
                keys@.len() + src@.len() == pairs@.len(),
                src@ == pairs@.skip(keys@.len() as int),
                forall|i: int|
                    0 <= i < keys@.len() ==> #[trigger] keys@[i]@ == pairs@[i].0@ && values@[i]
                        == pairs@[i].1,
            decreases src.len(),
        {
            let p = src.remove(0);
            proof {
                assert(p == pairs@[keys@.len() as int]);
                assert(src@ =~= pairs@.skip(keys@.len() as int + 1));
            }
            keys.push(p.0);
            values.push(p.1);
        }
        let r = ColumnList { keys, values };
        r
    }

    /// How many columns the catalog holds.
    pub fn len(&self) -> (r: usize)
        ensures
            r == column_pairs(*self).len(),
    {
        self.keys.len()
    }

    /// Whether a field name is mapped.
    pub fn contains_key(&self, key: &str) -> (r: bool)
        requires
            self.wf(),
        ensures
            r == (find_key(column_pairs(*self), key@, 0) is Some),
    {
        match self.position_of(key) {
            Some(_) => true,
            None => false,
        }
    }

    /// The column mapped to a field name.
    pub fn get(&self, key: &str) -> (r: Option<&ColumnValue>)
        requires
            self.wf(),
        ensures
            match find_key(column_pairs(*self), key@, 0) {
                Some(i) => r matches Some(c) && (c.column@, c.def) == column_pairs(*self)[i].1,
                None => r is None,
            },
    {
        proof {
            lemma_find_key_range(column_pairs(*self), key@, 0);
        }
        match self.position_of(key) {
            Some(i) => Some(&self.values[i]),
            None => None,
        }
    }

    /// The field names, in order.
    pub fn keys(&self) -> (r: &Vec<String>)
        ensures
            r@.len() == column_pairs(*self).len(),
            forall|i: int|
                0 <= i < r@.len() ==> #[trigger] r@[i]@ == column_pairs(*self)[i].0,
    {
        &self.keys
    }

    /// The field name at a position.
    pub fn key_at(&self, i: usize) -> (r: &String)
        requires
            i < column_pairs(*self).len(),
        ensures
            r@ == column_pairs(*self)[i as int].0,
    {
        &self.keys[i]
    }

    /// The column at a position.
    pub fn col_at(&self, i: usize) -> (r: &ColumnValue)
        requires
            self.wf(),
            i < column_pairs(*self).len(),
        ensures
            (r.column@, r.def) == column_pairs(*self)[i as int].1,
    {
        &self.values[i]
    }

    /// Find the position of a field name.
    #[verifier::loop_isolation(false)]
    fn position_of(&self, key: &str) -> (r: Option<usize>)
        requires
            self.wf(),
        ensures
            match r {
                Some(i) => find_key(column_pairs(*self), key@, 0) == Some(i as int),
                None => find_key(column_pairs(*self), key@, 0) is None,
            },
    {
        let ghost pairs = column_pairs(*self);
        let mut i: usize = 0;
        while i < self.keys.len()
            invariant
                i <= pairs.len(),
                find_key(pairs, key@, 0) == find_key(pairs, key@, i as int),
            decreases self.keys@.len() - i,
        {
            let k = &self.keys[i];
            if crate::chars::chars_eq_str(&crate::chars::str_chars(k.as_str()), key) {
                proof {
                    assert(pairs[i as int].0 == key@);
                }
                return Some(i);
            }
            proof {
                assert(pairs[i as int].0 != key@);
            }
            i += 1;
        }
        None
    }
}

} // verus!
