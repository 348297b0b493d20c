//! The typed settings a profile carries, and what of them the scripting
//! sandbox can take.
//!
//! A setting's value is a string, integer, float, boolean, date-time, array
//! or table, nested arbitrarily. The sandbox's dynamic representation has no
//! date-time values, so a value holding one anywhere cannot be handed over
//! and must be refused loudly when the sandbox is built.
use vstd::prelude::*;

use crate::error::Error;

verus! {

/// A typed setting value. A float is carried by its bit pattern; a
/// date-time by its textual form.
#[derive(Debug)]
pub enum SettingValue {
    Str(String),
    Int(i64),
    FloatBits(u64),
    Bool(bool),
    Datetime(String),
    Array(Vec<SettingValue>),
    Table(Vec<(String, SettingValue)>),
}

/// Whether a value holds a date-time anywhere inside it.
pub open spec fn has_datetime(v: SettingValue) -> bool
    decreases v,
{
    match v {
        SettingValue::Datetime(_) => true,
        SettingValue::Array(vs) => exists|i: int| 0 <= i < vs@.len() && has_datetime(vs@[i]),
        SettingValue::Table(ps) => exists|i: int| 0 <= i < ps@.len() && has_datetime(ps@[i].1),
        _ => false,
    }
}

/// Whether the sandbox can represent `v`: it can, exactly when no
/// date-time hides anywhere inside it.
pub fn value_convertible(v: &SettingValue) -> (r: bool)
    ensures
        r == !has_datetime(*v),
    decreases *v,
{
    match v {
        SettingValue::Datetime(_) => false,
        SettingValue::Array(vs) => {
            let n = vs.len();
            let mut i: usize = 0;
            while i < n
                invariant
                    i <= n,
                    n == vs@.len(),
                    *v is Array,
                    (*v)->Array_0 == *vs,
                    forall|j: int| 0 <= j < i ==> !has_datetime(vs@[j]),
                decreases n - i,
            {
                proof {
                    assert((*v)->Array_0 == *vs);
                    assert(decreases_to!(*v => (*v)->Array_0));
                    assert(decreases_to!((*v)->Array_0 => (*v)->Array_0@));
                    assert(decreases_to!((*v)->Array_0@ => (*v)->Array_0@[i as int]));
                    assert(decreases_to!(*v => vs@[i as int]));
                }
                if !value_convertible(&vs[i]) {
                    proof {
                        assert(has_datetime(vs@[i as int]));
                    }
                    return false;
                }
                i += 1;
            }
            true
        },
        SettingValue::Table(ps) => {
            let n = ps.len();
            let mut i: usize = 0;
            while i < n
                invariant
                    i <= n,
                    n == ps@.len(),
                    *v is Table,
                    (*v)->Table_0 == *ps,
                    forall|j: int| 0 <= j < i ==> !has_datetime(ps@[j].1),
                decreases n - i,
            {
                proof {
                    assert((*v)->Table_0 == *ps);
                    assert(decreases_to!(*v => (*v)->Table_0));
                    assert(decreases_to!((*v)->Table_0 => (*v)->Table_0@));
                    assert(decreases_to!((*v)->Table_0@ => (*v)->Table_0@[i as int]));
                    assert(decreases_to!((*v)->Table_0@[i as int] => (*v)->Table_0@[i as int].1));
                    assert(decreases_to!(*v => ps@[i as int].1));
                }
                if !value_convertible(&ps[i].1) {
                    proof {
                        assert(has_datetime(ps@[i as int].1));
                    }
                    return false;
                }
                i += 1;
            }
            true
        },
        _ => true,
    }
}

/// A profile's settings: named values with unique names. The order of
/// entries carries no meaning.
#[derive(Debug)]
pub struct SettingsTable {
    pub entries: Vec<(String, SettingValue)>,
}

impl SettingsTable {
    /// Whether `k` names a setting of this table.
    pub open spec fn contains_key(&self, k: Seq<char>) -> bool {
        exists|i: int| 0 <= i < self.entries@.len() && self.entries@[i].0@ == k
    }

    /// Well-formed: no two entries share a name.
    pub open spec fn wf(&self) -> bool {
        forall|i: int, j: int|
            0 <= i < j < self.entries@.len() ==> self.entries@[i].0@ != self.entries@[j].0@
    }

    /// An empty table.
    pub fn new() -> (r: SettingsTable)
        ensures
            r.entries@.len() == 0,
            r.wf(),
    {
        SettingsTable { entries: Vec::new() }
    }

    /// The value stored under `name`, when one is; unknown names resolve
    /// to nothing, never to an error.
    pub fn get(&self, name: &str) -> (r: Option<&SettingValue>)
        ensures
            match r {
                Some(v) => exists|i: int|
                    0 <= i < self.entries@.len() && self.entries@[i].0@ == name@ && *v == #[trigger] self.entries@[i].1,
                None => !self.contains_key(name@),
            },
    {
        let n = self.entries.len();
        let mut i: usize = 0;
        while i < n
            invariant
                i <= n,
                n == self.entries@.len(),
                forall|j: int| 0 <= j < i ==> self.entries@[j].0@ != name@,
            decreases n - i,
        {
            if crate::paths::str_eq(self.entries[i].0.as_str(), name) {
                return Some(&self.entries[i].1);
            }
            i += 1;
        }
        None
    }

    /// Stores `value` under `name`: replaces the value of an entry already
    /// so named, else appends a new entry. Uniqueness of names is kept.
    pub fn set(&mut self, name: String, value: SettingValue)
        requires
            old(self).wf(),
        ensures
            final(self).wf(),
            final(self).contains_key(name@),
            old(self).contains_key(name@) ==> exists|i: int|
                {
                    &&& 0 <= i < old(self).entries@.len()
                    &&& old(self).entries@[i].0@ == name@
                    &&& final(self).entries@ =~= old(self).entries@.update(i, (name, value))
                },
            !old(self).contains_key(name@) ==> final(self).entries@ =~= old(self).entries@.push(
                (name, value),
            ),
    {
        let n = self.entries.len();
        let mut i: usize = 0;
        while i < n
            invariant
                i <= n,
                n == self.entries@.len(),
                *self == *old(self),
                old(self).wf(),
                forall|j: int| 0 <= j < i ==> self.entries@[j].0@ != name@,
            decreases n - i,
        {
            if crate::paths::str_eq(self.entries[i].0.as_str(), name.as_str()) {
                self.entries.set(i, (name, value));
                proof {
                    assert(self.entries@[i as int].0@ == name@);
                    assert(self.contains_key(name@));
                    assert forall|a: int, b: int|
                        0 <= a < b < self.entries@.len() implies self.entries@[a].0@
                        != self.entries@[b].0@ by {
                        assert(old(self).entries@[a].0@ != old(self).entries@[b].0@);
                    }
                }
                return ;
            }
            i += 1;
        }
        self.entries.push((name, value));
        proof {
            assert(self.entries@[self.entries@.len() - 1].0@ == name@);
            assert forall|a: int, b: int|
                0 <= a < b < self.entries@.len() implies self.entries@[a].0@
                != self.entries@[b].0@ by {
                if b < self.entries@.len() - 1 {
                    assert(old(self).entries@[a].0@ != old(self).entries@[b].0@);
                } else {
                    assert(old(self).entries@[a].0@ != name@);
                }
            }
        }
    }

    /// Takes the entry named `name` out, or reports that no setting of
    /// that name exists in the profile at `profile_path`.
    pub fn remove(&mut self, name: &str, profile_path: &String) -> (r: Result<(), Error>)
        requires
            old(self).wf(),
        ensures
            final(self).wf(),
            old(self).contains_key(name@) ==> r is Ok && exists|i: int|
                {
                    &&& 0 <= i < old(self).entries@.len()
                    &&& old(self).entries@[i].0@ == name@
                    &&& final(self).entries@ =~= old(self).entries@.remove(i)
                },
            !old(self).contains_key(name@) ==> ({
                &&& final(self).entries@ =~= old(self).entries@
                &&& r matches Err(e)
                &&& e matches Error::SettingNotFound(n, pf) && n@ == name@ && pf@ == profile_path@
            }),
    {
        let n = self.entries.len();
        let mut i: usize = 0;
        while i < n
            invariant
                i <= n,
                n == self.entries@.len(),
                *self == *old(self),
                old(self).wf(),
                forall|j: int| 0 <= j < i ==> self.entries@[j].0@ != name@,
            decreases n - i,
        {
            if crate::paths::str_eq(self.entries[i].0.as_str(), name) {
                self.entries.remove(i);
                proof {
                    assert forall|a: int, b: int|
                        0 <= a < b < self.entries@.len() implies self.entries@[a].0@
                        != self.entries@[b].0@ by {
                        let oa: int = if a < i { a } else { a + 1 };
                        let ob: int = if b < i { b } else { b + 1 };
                        assert(old(self).entries@[oa].0@ != old(self).entries@[ob].0@);
                    }
                }
                return Ok(());
            }
            i += 1;
        }
        Err(
            Error::SettingNotFound(
                String::from_str(name),
                String::from_str(profile_path.as_str()),
            ),
        )
    }
}

/// Whether every setting of the table can be handed to the sandbox: true
/// exactly when no value holds a date-time anywhere.
pub fn settings_convertible(table: &SettingsTable) -> (r: bool)
    ensures
        r == (forall|i: int|
            0 <= i < table.entries@.len() ==> !has_datetime(#[trigger] table.entries@[i].1)),
{
    let n = table.entries.len();
    let mut i: usize = 0;
    while i < n
        invariant
            i <= n,
            n == table.entries@.len(),
            forall|j: int| 0 <= j < i ==> !has_datetime(#[trigger] table.entries@[j].1),
        decreases n - i,
    {
        if !value_convertible(&table.entries[i].1) {
            return false;
        }
        i += 1;
    }
    true
}

} // verus!
