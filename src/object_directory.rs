use vstd::prelude::*;
use vstd::string::*;
use crate::data_type::DataType;
use crate::error::{AbortCode, ErrorCode};
use crate::text::{chars_of, digits_value, eq_ignore_ascii_case, push_char, slice_eq_ignore_ascii_case, str_eq};
use crate::util::make_abort_error;
use crate::util::{digits_value_u16, is_name, is_sub, is_top, parse_number, spec_is_name, spec_is_sub, spec_is_top, spec_parse_number, ParseRadix};
use crate::value::{
    decimal_text, get_formatted_value_from_properties, lookup, spec_formatted_value, Properties,
    Value,
};

verus! {

/// Whether an entry may be read and written over the bus.
#[derive(Clone, Copy, Debug, PartialEq, Eq, Structural)]
pub struct AccessType {
    pub read_access: bool,
    pub write_access: bool,
}

impl AccessType {
    pub fn new(read: bool, write: bool) -> (r: Self)
        ensures
            r.read_access == read,
            r.write_access == write,
    {
        AccessType { read_access: read, write_access: write }
    }

    pub fn is_readable(&self) -> (r: bool)
        ensures
            r == self.read_access,
    {
        self.read_access
    }

    pub fn is_writable(&self) -> (r: bool)
        ensures
            r == self.write_access,
    {
        self.write_access
    }

    /// `rw`, `ro` and `wo` in any ASCII case give their access; any other
    /// text gives none.
    pub open spec fn spec_parse(s: Seq<char>) -> AccessType {
        if eq_ignore_ascii_case(s, seq!['r', 'w']) {
            AccessType { read_access: true, write_access: true }
        } else if eq_ignore_ascii_case(s, seq!['r', 'o']) {
            AccessType { read_access: true, write_access: false }
        } else if eq_ignore_ascii_case(s, seq!['w', 'o']) {
            AccessType { read_access: false, write_access: true }
        } else {
            AccessType { read_access: false, write_access: false }
        }
    }

    /// The access that a data sheet `AccessType` text gives.
    pub fn parse(s: &str) -> (r: AccessType)
        ensures
            r == Self::spec_parse(s@),
    {
        let cs = chars_of(s);
        let two = cs.len() == 2;
        proof {
            reveal_strlit("rw");
            reveal_strlit("ro");
            reveal_strlit("wo");
            assert("rw"@ =~= seq!['r', 'w']);
            assert("ro"@ =~= seq!['r', 'o']);
            assert("wo"@ =~= seq!['w', 'o']);
            if two {
                assert(cs@.subrange(0, 2) =~= s@);
            }
        }
        if two && slice_eq_ignore_ascii_case(&cs, 0, "rw") {
            AccessType::new(true, true)
        } else if two && slice_eq_ignore_ascii_case(&cs, 0, "ro") {
            AccessType::new(true, false)
        } else if two && slice_eq_ignore_ascii_case(&cs, 0, "wo") {
            AccessType::new(false, true)
        } else {
            AccessType::new(false, false)
        }
    }
}

impl std::str::FromStr for AccessType {
    type Err = ErrorCode;

    fn from_str(s: &str) -> Result<Self, Self::Err> {
        Ok(AccessType::parse(s))
    }
}

/// A leaf entry of the object dictionary. `default_value` holds the current
/// value.
#[derive(Clone, Debug)]
pub struct Variable {
    pub name: String,
    pub storage_location: String,
    pub data_type: DataType,
    pub default_value: Value,
    pub min: Option<Value>,
    pub max: Option<Value>,
    pub pdo_mappable: bool,
    pub access_type: AccessType,
    pub parameter_value: Option<Value>,
    pub index: u16,
    pub sub_index: u8,
}

/// What a variable holds, as plain values.
pub struct VariableView {
    pub name: Seq<char>,
    pub storage_location: Seq<char>,
    pub data_type: DataType,
    pub value: Seq<u8>,
    pub min: Option<Seq<u8>>,
    pub max: Option<Seq<u8>>,
    pub pdo_mappable: bool,
    pub access_type: AccessType,
    pub parameter_value: Option<Seq<u8>>,
    pub index: u16,
    pub sub_index: u8,
}

pub open spec fn opt_view(v: Option<Value>) -> Option<Seq<u8>> {
    match v {
        Some(x) => Some(x@),
        None => None,
    }
}

fn copy_opt(v: &Option<Value>) -> (r: Option<Value>)
    ensures
        opt_view(r) == opt_view(*v),
{
    match v {
        Some(x) => Some(x.copy()),
        None => None,
    }
}

impl View for Variable {
    type V = VariableView;

    open spec fn view(&self) -> VariableView {
        VariableView {
            name: self.name@,
            storage_location: self.storage_location@,
            data_type: self.data_type,
            value: self.default_value@,
            min: opt_view(self.min),
            max: opt_view(self.max),
            pdo_mappable: self.pdo_mappable,
            access_type: self.access_type,
            parameter_value: opt_view(self.parameter_value),
            index: self.index,
            sub_index: self.sub_index,
        }
    }
}

impl Variable {
    pub fn name(&self) -> (r: &str)
        ensures
            r@ == self.name@,
    {
        self.name.as_str()
    }

    pub fn data_type(&self) -> (r: DataType)
        ensures
            r == self.data_type,
    {
        self.data_type
    }

    pub fn default_value(&self) -> (r: &Value)
        ensures
            r@ == self.default_value@,
    {
        &self.default_value
    }

    pub fn min(&self) -> (r: &Option<Value>)
        ensures
            opt_view(*r) == opt_view(self.min),
    {
        &self.min
    }

    pub fn max(&self) -> (r: &Option<Value>)
        ensures
            opt_view(*r) == opt_view(self.max),
    {
        &self.max
    }

    pub fn access_type(&self) -> (r: &AccessType)
        ensures
            *r == self.access_type,
    {
        &self.access_type
    }

    pub fn index(&self) -> (r: u16)
        ensures
            r == self.index,
    {
        self.index
    }

    pub fn sub_index(&self) -> (r: u8)
        ensures
            r == self.sub_index,
    {
        self.sub_index
    }

    pub fn pdo_mappable(&self) -> (r: bool)
        ensures
            r == self.pdo_mappable,
    {
        self.pdo_mappable
    }

    /// A deep copy.
    pub fn copy(&self) -> (r: Variable)
        ensures
            r@ == self@,
    {
        Variable {
            name: self.name.clone(),
            storage_location: self.storage_location.clone(),
            data_type: self.data_type,
            default_value: self.default_value.copy(),
            min: copy_opt(&self.min),
            max: copy_opt(&self.max),
            pdo_mappable: self.pdo_mappable,
            access_type: self.access_type,
            parameter_value: copy_opt(&self.parameter_value),
            index: self.index,
            sub_index: self.sub_index,
        }
    }
}

/// The views of a list of variables.
pub open spec fn views(vars: Seq<Variable>) -> Seq<VariableView> {
    vars.map_values(|x: Variable| x@)
}

proof fn lemma_views_len(s: Seq<Variable>)
    ensures
        views(s).len() == s.len(),
        forall|k: int| 0 <= k < s.len() ==> #[trigger] views(s)[k] == s[k]@,
{
}

/// The member at `sub` in a list of members: the last one with that
/// sub-index.
pub open spec fn find_member(vars: Seq<VariableView>, sub: u8) -> Option<int>
    decreases vars.len(),
{
    if vars.len() == 0 {
        None
    } else if vars.last().sub_index == sub {
        Some(vars.len() - 1)
    } else {
        find_member(vars.drop_last(), sub)
    }
}

proof fn lemma_find_member(vars: Seq<VariableView>, sub: u8)
    ensures
        find_member(vars, sub) matches Some(i) ==> 0 <= i < vars.len() && vars[i].sub_index == sub,
        find_member(vars, sub) is None ==> forall|i: int| 0 <= i < vars.len() ==> #[trigger] vars[i].sub_index != sub,
    decreases vars.len(),
{
    if vars.len() > 0 {
        lemma_find_member(vars.drop_last(), sub);
        if vars.last().sub_index != sub {
            assert forall|i: int| 0 <= i < vars.len() - 1 implies #[trigger] vars[i].sub_index == vars.drop_last()[i].sub_index by {}
        }
    }
}

/// `vars` with `v` at its sub-index: replacing the member found there, else
/// appended.
pub open spec fn put_member(vars: Seq<VariableView>, v: VariableView) -> Seq<VariableView> {
    match find_member(vars, v.sub_index) {
        Some(i) => vars.update(i, v),
        None => vars.push(v),
    }
}

fn find_member_exec(vars: &Vec<Variable>, sub: u8) -> (r: Option<usize>)
    ensures
        r matches Some(i) ==> find_member(views(vars@), sub) == Some(i as int) && i < vars@.len(),
        r is None ==> find_member(views(vars@), sub) is None,
{
    let ghost vs = views(vars@);
    let mut i: usize = vars.len();
    assert(vs.subrange(0, i as int) =~= vs);
    while i > 0
        invariant
            i <= vars@.len(),
            vs == views(vars@),
            find_member(vs, sub) == find_member(vs.subrange(0, i as int), sub),
        decreases i,
    {
        assert(vs.subrange(0, i as int).drop_last() =~= vs.subrange(0, i - 1));
        if vars[i - 1].sub_index == sub {
            return Some(i - 1);
        }
        i = i - 1;
    }
    None
}

fn put_member_exec(vars: &mut Vec<Variable>, v: Variable)
    ensures
        views(final(vars)@) == put_member(
            views(old(vars)@),
            v@,
        ),
{
    proof {
        lemma_find_member(views(old(vars)@), v.sub_index);
        lemma_views_len(old(vars)@);
    }
    match find_member_exec(vars, v.sub_index) {
        Some(i) => {
            let ghost w = v@;
            vars.set(i, v);
            proof {
                lemma_views_len(vars@);
            }
            assert(views(vars@) =~= views(old(vars)@).update(i as int, w));
        },
        None => {
            let ghost w = v@;
            vars.push(v);
            proof {
                lemma_views_len(vars@);
            }
            assert(views(vars@) =~= views(old(vars)@).push(w));
        },
    }
}

fn copy_members(vars: &Vec<Variable>) -> (r: Vec<Variable>)
    ensures
        views(r@) == views(vars@),
{
    let mut r: Vec<Variable> = Vec::new();
    let mut i: usize = 0;
    while i < vars.len()
        invariant
            i <= vars@.len(),
            views(r@) == views(vars@).subrange(0, i as int),
        decreases vars@.len() - i,
    {
        let c = vars[i].copy();
        let ghost before = r@;
        r.push(c);
        assert(r@ == before.push(c));
        proof {
            lemma_views_len(r@);
            lemma_views_len(before);
            lemma_views_len(vars@);
        }
        assert(views(r@) =~= views(vars@).subrange(0, i + 1)) by {
            assert forall|k: int| 0 <= k < i + 1 implies views(r@)[k] == views(vars@).subrange(0, i + 1)[k] by {
                if k < i {
                    assert(views(r@)[k] == r@[k]@);
                    assert(r@[k] == before[k]);
                    assert(views(before)[k] == before[k]@);
                }
            }
        }
        i = i + 1;
    }
    assert(views(vars@).subrange(0, i as int) =~= views(vars@));
    r
}

/// An entry with one element prototype at sub-index 1, cloned on first
/// access to other sub-indices; sub-index 0 holds the number of entries.
#[derive(Clone, Debug)]
pub struct Array {
    pub name: String,
    pub index: u16,
    pub storage_location: String,
    pub index_to_variable: Vec<Variable>,
}

/// An entry with an explicit list of members.
#[derive(Clone, Debug)]
pub struct Record {
    pub name: String,
    pub index: u16,
    pub storage_location: String,
    pub index_to_variable: Vec<Variable>,
}

/// What an array or record holds, as plain values.
pub struct ContainerView {
    pub name: Seq<char>,
    pub index: u16,
    pub storage_location: Seq<char>,
    pub members: Seq<VariableView>,
}

impl View for Array {
    type V = ContainerView;

    open spec fn view(&self) -> ContainerView {
        ContainerView {
            name: self.name@,
            index: self.index,
            storage_location: self.storage_location@,
            members: views(self.index_to_variable@),
        }
    }
}

impl View for Record {
    type V = ContainerView;

    open spec fn view(&self) -> ContainerView {
        ContainerView {
            name: self.name@,
            index: self.index,
            storage_location: self.storage_location@,
            members: views(self.index_to_variable@),
        }
    }
}

/// The name of the element that an array creates at `sub`:
/// `{array_name}_{sub}`.
pub open spec fn element_name(array_name: Seq<char>, sub: u8) -> Seq<char> {
    array_name + seq!['_'] + decimal_text(sub as int)
}

/// The element that an array creates at `sub` from its prototype.
pub open spec fn element_of(base: VariableView, array_name: Seq<char>, sub: u8) -> VariableView {
    VariableView { name: element_name(array_name, sub), sub_index: sub, ..base }
}

/// Whether an array makes up an element at `sub` on access.
pub open spec fn materialises(a: ContainerView, sub: u8) -> bool {
    find_member(a.members, sub) is None && 0 < sub < 0xFF && find_member(a.members, 1) is Some
}

/// The array after an access to `sub`.
pub open spec fn after_access(a: ContainerView, sub: u8) -> ContainerView {
    if materialises(a, sub) {
        ContainerView {
            members: put_member(
                a.members,
                element_of(a.members[find_member(a.members, 1)->Some_0], a.name, sub),
            ),
            ..a
        }
    } else {
        a
    }
}

impl Array {
    pub fn name(&self) -> (r: &str)
        ensures
            r@ == self.name@,
    {
        self.name.as_str()
    }

    pub fn index(&self) -> (r: u16)
        ensures
            r == self.index,
    {
        self.index
    }

    /// Adds `var` at its sub-index, replacing any member there.
    pub fn add_member(&mut self, var: Variable)
        ensures
            final(self)@ == (ContainerView { members: put_member(old(self)@.members, var@), ..old(self)@ }),
    {
        put_member_exec(&mut self.index_to_variable, var);
    }

    /// A deep copy.
    pub fn copy(&self) -> (r: Array)
        ensures
            r@ == self@,
    {
        Array {
            name: self.name.clone(),
            index: self.index,
            storage_location: self.storage_location.clone(),
            index_to_variable: copy_members(&self.index_to_variable),
        }
    }

    /// Makes up the element at `sub` from the prototype at sub-index 1 when
    /// it is absent and `sub` is in `1..=254`.
    pub fn materialise(&mut self, sub_index: u8)
        ensures
            final(self)@ == after_access(old(self)@, sub_index),
    {
        let ghost old_members = views(self.index_to_variable@);
        let ghost a = self@;
        if find_member_exec(&self.index_to_variable, sub_index).is_some() {
            assert(!materialises(a, sub_index));
            return;
        }
        if 0 < sub_index && sub_index < 0xFF {
            match find_member_exec(&self.index_to_variable, 1) {
                Some(b) => {
                    proof {
                        lemma_find_member(old_members, 1);
                        lemma_views_len(self.index_to_variable@);
                    }
                    let mut new_var = self.index_to_variable[b].copy();
                    let mut name = self.name.clone();
                    push_char(&mut name, '_');
                    name.append(crate::value::decimal_string(sub_index as i64).as_str());
                    new_var.name = name;
                    new_var.sub_index = sub_index;
                    assert(new_var@ == element_of(old_members[b as int], self.name@, sub_index)) by {
                        assert(new_var.name@ =~= element_name(self.name@, sub_index));
                    }
                    assert(materialises(a, sub_index));
                    self.add_member(new_var);
                },
                None => {
                    assert(!materialises(a, sub_index));
                },
            }
        } else {
            assert(!materialises(a, sub_index));
        }
    }

    /// The member at `sub_index`, made up from the prototype when absent.
    pub fn get_mut_variable(&mut self, sub_index: u8) -> (r: Result<&mut Variable, ErrorCode>)
        ensures
            find_member(after_access(old(self)@, sub_index).members, sub_index) is Some <==> r is Ok,
            r matches Ok(v) ==> (*v)@ == after_access(old(self)@, sub_index).members[find_member(after_access(old(self)@, sub_index).members, sub_index)->Some_0],
            r matches Err(e) ==> is_abort(e, AbortCode::ObjectDoesNotExistInObjectDictionary),
    {
        self.materialise(sub_index);
        proof {
            lemma_find_member(views(self.index_to_variable@), sub_index);
            lemma_views_len(self.index_to_variable@);
        }
        match find_member_exec(&self.index_to_variable, sub_index) {
            Some(i) => {
                assert(views(self.index_to_variable@)[i as int] == self.index_to_variable@[i as int]@);
                Ok(&mut self.index_to_variable[i])
            },
            None => Err(make_abort_error(AbortCode::ObjectDoesNotExistInObjectDictionary, String::new())),
        }
    }
}

/// Whether `e` wraps the abort code `code`.
pub open spec fn is_abort(e: ErrorCode, code: AbortCode) -> bool {
    e matches ErrorCode::AbortCodeWrapper { abort_code, .. } && abort_code == code
}

impl Record {
    pub fn name(&self) -> (r: &str)
        ensures
            r@ == self.name@,
    {
        self.name.as_str()
    }

    pub fn index(&self) -> (r: u16)
        ensures
            r == self.index,
    {
        self.index
    }

    /// The members, in the order added.
    pub fn index_to_variable(&self) -> (r: &Vec<Variable>)
        ensures
            views(r@) == self@.members,
    {
        &self.index_to_variable
    }

    /// The sub-index of the member named `name`.
    pub fn name_to_index(&self, name: &str) -> (r: Option<u8>)
        ensures
            r matches Some(k) ==> exists|i: int| 0 <= i < self@.members.len() && self@.members[i].name == name@ && self@.members[i].sub_index == k,
            r is None ==> forall|i: int| 0 <= i < self@.members.len() ==> #[trigger] self@.members[i].name != name@,
    {
        match find_by_name(&self.index_to_variable, name) {
            Some(i) => {
                proof {
                    lemma_views_len(self.index_to_variable@);
                    assert(self@.members[i as int] == self.index_to_variable@[i as int]@);
                }
                Some(self.index_to_variable[i].sub_index)
            },
            None => {
                proof {
                    lemma_views_len(self.index_to_variable@);
                }
                None
            },
        }
    }

    /// Adds `var` at its sub-index, replacing any member there.
    pub fn add_member(&mut self, var: Variable)
        ensures
            final(self)@ == (ContainerView { members: put_member(old(self)@.members, var@), ..old(self)@ }),
    {
        put_member_exec(&mut self.index_to_variable, var);
    }

    /// A deep copy.
    pub fn copy(&self) -> (r: Record)
        ensures
            r@ == self@,
    {
        Record {
            name: self.name.clone(),
            index: self.index,
            storage_location: self.storage_location.clone(),
            index_to_variable: copy_members(&self.index_to_variable),
        }
    }

    /// The member at `sub_index`.
    pub fn get_mut_variable(&mut self, sub_index: u8) -> (r: Result<&mut Variable, ErrorCode>)
        ensures
            find_member(old(self)@.members, sub_index) is Some <==> r is Ok,
            r matches Ok(v) ==> (*v)@ == old(self)@.members[find_member(old(self)@.members, sub_index)->Some_0],
            r is Err ==> final(self)@ == old(self)@,
            r matches Err(e) ==> is_abort(e, AbortCode::ObjectDoesNotExistInObjectDictionary),
    {
        proof {
            lemma_views_len(self.index_to_variable@);
        }
        match find_member_exec(&self.index_to_variable, sub_index) {
            Some(i) => Ok(&mut self.index_to_variable[i]),
            None => Err(make_abort_error(AbortCode::ObjectDoesNotExistInObjectDictionary, String::new())),
        }
    }

    /// The member named `name`.
    pub fn get_variable_by_name(&self, name: &str) -> (r: Result<&Variable, ErrorCode>)
        ensures
            r matches Ok(v) ==> v@.name == name@ && exists|i: int| 0 <= i < self@.members.len() && self@.members[i] == v@,
            r matches Err(e) ==> is_abort(e, AbortCode::GeneralError) && forall|i: int| 0 <= i < self@.members.len() ==> #[trigger] self@.members[i].name != name@,
    {
        proof {
            lemma_views_len(self.index_to_variable@);
        }
        match find_by_name(&self.index_to_variable, name) {
            Some(i) => {
                assert(self@.members[i as int] == self.index_to_variable@[i as int]@);
                Ok(&self.index_to_variable[i])
            },
            None => Err(make_abort_error(AbortCode::GeneralError, String::new())),
        }
    }
}

fn find_by_name(vars: &Vec<Variable>, name: &str) -> (r: Option<usize>)
    ensures
        r matches Some(i) ==> i < vars@.len() && vars@[i as int].name@ == name@,
        r is None ==> forall|i: int| 0 <= i < vars@.len() ==> #[trigger] vars@[i].name@ != name@,
{
    let mut i: usize = vars.len();
    while i > 0
        invariant
            i <= vars@.len(),
            forall|k: int| i <= k < vars@.len() ==> #[trigger] vars@[k].name@ != name@,
        decreases i,
    {
        if str_eq(vars[i - 1].name.as_str(), name) {
            return Some(i - 1);
        }
        i = i - 1;
    }
    None
}

/// An entry of the object dictionary.
#[derive(Clone, Debug)]
pub enum ObjectType {
    Variable(Variable),
    Array(Array),
    Record(Record),
}

/// What an entry holds, as plain values.
pub enum ObjectView {
    Variable(VariableView),
    Array(ContainerView),
    Record(ContainerView),
}

impl View for ObjectType {
    type V = ObjectView;

    open spec fn view(&self) -> ObjectView {
        match self {
            ObjectType::Variable(v) => ObjectView::Variable(v@),
            ObjectType::Array(a) => ObjectView::Array(a@),
            ObjectType::Record(r) => ObjectView::Record(r@),
        }
    }
}

impl ObjectView {
    pub open spec fn index(self) -> u16 {
        match self {
            ObjectView::Variable(v) => v.index,
            ObjectView::Array(a) => a.index,
            ObjectView::Record(r) => r.index,
        }
    }

    pub open spec fn name(self) -> Seq<char> {
        match self {
            ObjectView::Variable(v) => v.name,
            ObjectView::Array(a) => a.name,
            ObjectView::Record(r) => r.name,
        }
    }
}

impl ObjectType {
    pub fn index(&self) -> (r: u16)
        ensures
            r == self@.index(),
    {
        match self {
            ObjectType::Variable(v) => v.index,
            ObjectType::Array(a) => a.index,
            ObjectType::Record(r) => r.index,
        }
    }

    pub fn name(&self) -> (r: &str)
        ensures
            r@ == self@.name(),
    {
        match self {
            ObjectType::Variable(v) => v.name.as_str(),
            ObjectType::Array(a) => a.name.as_str(),
            ObjectType::Record(r) => r.name.as_str(),
        }
    }

    /// The entry after an access to `sub_index`: an array may make up an
    /// element there.
    pub fn materialise(&mut self, sub_index: u8)
        ensures
            final(self)@ == match old(self)@ {
                ObjectView::Array(a) => ObjectView::Array(after_access(a, sub_index)),
                o => o,
            },
    {
        match self {
            ObjectType::Array(a) => a.materialise(sub_index),
            _ => {},
        }
    }

    /// Adds `var` to an array or a record; a variable has no members.
    fn add_to_container(&mut self, var: Variable) -> (r: Result<(), String>)
        ensures
            match old(self)@ {
                ObjectView::Array(a) => r is Ok && final(self)@ == ObjectView::Array(ContainerView { members: put_member(a.members, var@), ..a }),
                ObjectView::Record(a) => r is Ok && final(self)@ == ObjectView::Record(ContainerView { members: put_member(a.members, var@), ..a }),
                ObjectView::Variable(_) => r is Err && final(self)@ == old(self)@,
            },
    {
        match self {
            ObjectType::Record(record) => {
                record.add_member(var);
                Ok(())
            },
            ObjectType::Array(array) => {
                array.add_member(var);
                Ok(())
            },
            ObjectType::Variable(_) => Err(String::from_str("no subindex for a Variable object")),
        }
    }

    /// Adds to an array the members that a names section lists, each a copy
    /// of the prototype at sub-index 1 under its listed name.
    fn add_named_members(&mut self, properties: &Properties, n: u8)
        ensures
            final(self)@ == match old(self)@ {
                ObjectView::Array(a) => match find_member(a.members, 1) {
                    Some(j) => ObjectView::Array(ContainerView { members: put_members(a.members, named_members(a.members[j], properties@, n as nat)), ..a }),
                    None => old(self)@,
                },
                o => o,
            },
    {
        match self {
            ObjectType::Array(a) => {
                proof {
                    lemma_find_member(a@.members, 1);
                    lemma_views_len(a.index_to_variable@);
                }
                let j = match find_member_exec(&a.index_to_variable, 1) {
                    Some(j) => j,
                    None => return,
                };
                let proto = a.index_to_variable[j].copy();
                let ghost pv = proto@;
                let mut new_vars: Vec<Variable> = Vec::new();
                let mut k: u16 = 1;
                proof {
                    lemma_views_len(new_vars@);
                }
                assert(views(new_vars@) =~= named_members(pv, properties@, 0));
                while k <= n as u16
                    invariant
                        1 <= k <= n as u16 + 1,
                        proto@ == pv,
                        views(new_vars@) == named_members(pv, properties@, (k - 1) as nat),
                    decreases n as u16 + 1 - k,
                {
                    let key = crate::value::decimal_string(k as i64);
                    proof {
                        lemma_views_len(new_vars@);
                    }
                    match properties.get(key.as_str()) {
                        Some(nm) => {
                            let mut v = proto.copy();
                            v.name = nm.clone();
                            v.sub_index = k as u8;
                            let ghost before = new_vars@;
                            let ghost vv = v@;
                            new_vars.push(v);
                            proof {
                                lemma_views_len(new_vars@);
                                lemma_views_len(before);
                            }
                            assert(views(new_vars@) =~= views(before).push(vv));
                        },
                        None => {},
                    }
                    k = k + 1;
                }
                let mut t: usize = 0;
                let ghost start = a@.members;
                let ghost all = views(new_vars@);
                proof {
                    lemma_views_len(new_vars@);
                }
                assert(all.subrange(0, 0) =~= Seq::<VariableView>::empty());
                while t < new_vars.len()
                    invariant
                        t <= new_vars@.len(),
                        all == views(new_vars@),
                        all.len() == new_vars@.len(),
                        a@.members == put_members(start, all.subrange(0, t as int)),
                        a@.name == old(self)@->Array_0.name,
                        a@.index == old(self)@->Array_0.index,
                        a@.storage_location == old(self)@->Array_0.storage_location,
                    decreases new_vars@.len() - t,
                {
                    proof {
                        lemma_views_len(new_vars@);
                    }
                    assert(all.subrange(0, t + 1).drop_last() =~= all.subrange(0, t as int));
                    a.add_member(new_vars[t].copy());
                    t = t + 1;
                }
                assert(all.subrange(0, t as int) =~= all);
            },
            _ => {},
        }
    }

    /// The variable at a position found by the directory.
    fn member(&self, m: Option<usize>) -> (r: &Variable)
        requires
            position_fits(self@, m),
        ensures
            r@ == member_view(self@, m),
    {
        match self {
            ObjectType::Variable(v) => v,
            ObjectType::Array(a) => {
                proof {
                    lemma_views_len(a.index_to_variable@);
                }
                &a.index_to_variable[m.unwrap()]
            },
            ObjectType::Record(rec) => {
                proof {
                    lemma_views_len(rec.index_to_variable@);
                }
                &rec.index_to_variable[m.unwrap()]
            },
        }
    }

    /// Sets the value of the variable at a position found by the directory.
    fn set_member_value(&mut self, m: Option<usize>, value: Vec<u8>)
        requires
            position_fits(old(self)@, m),
        ensures
            final(self)@ == with_member_value(old(self)@, m, value@),
    {
        let ghost val = value@;
        match self {
            ObjectType::Variable(v) => {
                v.default_value.set_data(value);
            },
            ObjectType::Array(a) => {
                proof {
                    lemma_views_len(a.index_to_variable@);
                }
                let j = m.unwrap();
                a.index_to_variable[j].default_value.set_data(value);
                proof {
                    lemma_views_len(a.index_to_variable@);
                }
                assert(a@.members =~= old(self)@->Array_0.members.update(j as int, VariableView { value: val, ..old(self)@->Array_0.members[j as int] }));
            },
            ObjectType::Record(rec) => {
                proof {
                    lemma_views_len(rec.index_to_variable@);
                }
                let j = m.unwrap();
                rec.index_to_variable[j].default_value.set_data(value);
                proof {
                    lemma_views_len(rec.index_to_variable@);
                }
                assert(rec@.members =~= old(self)@->Record_0.members.update(j as int, VariableView { value: val, ..old(self)@->Record_0.members[j as int] }));
            },
        }
    }

    /// A deep copy.
    pub fn copy(&self) -> (r: ObjectType)
        ensures
            r@ == self@,
    {
        match self {
            ObjectType::Variable(v) => ObjectType::Variable(v.copy()),
            ObjectType::Array(a) => ObjectType::Array(a.copy()),
            ObjectType::Record(r) => ObjectType::Record(r.copy()),
        }
    }
}

pub fn obj_to_variable(obj: &ObjectType) -> (r: Option<&Variable>)
    ensures
        r matches Some(v) ==> obj@ == ObjectView::Variable(v@),
        r is None ==> !(obj@ is Variable),
{
    match obj {
        ObjectType::Variable(var) => Some(var),
        _ => None,
    }
}

pub fn obj_to_array(obj: &ObjectType) -> (r: Option<&Array>)
    ensures
        r matches Some(a) ==> obj@ == ObjectView::Array(a@),
        r is None ==> !(obj@ is Array),
{
    match obj {
        ObjectType::Array(arr) => Some(arr),
        _ => None,
    }
}

pub fn obj_to_record(obj: &ObjectType) -> (r: Option<&Record>)
    ensures
        r matches Some(x) ==> obj@ == ObjectView::Record(x@),
        r is None ==> !(obj@ is Record),
{
    match obj {
        ObjectType::Record(rec) => Some(rec),
        _ => None,
    }
}

/// Whether `m` designates a variable of entry `o`: none for a variable,
/// a member position for an array or record.
pub open spec fn position_fits(o: ObjectView, m: Option<usize>) -> bool {
    match o {
        ObjectView::Variable(_) => m is None,
        ObjectView::Array(a) => m matches Some(j) && j < a.members.len(),
        ObjectView::Record(a) => m matches Some(j) && j < a.members.len(),
    }
}

pub open spec fn member_view(o: ObjectView, m: Option<usize>) -> VariableView {
    match o {
        ObjectView::Variable(v) => v,
        ObjectView::Array(a) => a.members[m->Some_0 as int],
        ObjectView::Record(a) => a.members[m->Some_0 as int],
    }
}

pub open spec fn with_member_value(o: ObjectView, m: Option<usize>, value: Seq<u8>) -> ObjectView {
    match o {
        ObjectView::Variable(v) => ObjectView::Variable(VariableView { value, ..v }),
        ObjectView::Array(a) => ObjectView::Array(ContainerView { members: a.members.update(m->Some_0 as int, VariableView { value, ..a.members[m->Some_0 as int] }), ..a }),
        ObjectView::Record(a) => ObjectView::Record(ContainerView { members: a.members.update(m->Some_0 as int, VariableView { value, ..a.members[m->Some_0 as int] }), ..a }),
    }
}

/// The views of a list of entries.
pub open spec fn object_views(objs: Seq<ObjectType>) -> Seq<ObjectView> {
    objs.map_values(|o: ObjectType| o@)
}

/// The views of a list of entries have its length and its entries' views.
pub proof fn lemma_object_views(s: Seq<ObjectType>)
    ensures
        object_views(s).len() == s.len(),
        forall|k: int| 0 <= k < s.len() ==> #[trigger] object_views(s)[k] == s[k]@,
{
}

/// The position of the entry at `index`: the last one with that index.
pub open spec fn find_object(objs: Seq<ObjectView>, index: u16) -> Option<int>
    decreases objs.len(),
{
    if objs.len() == 0 {
        None
    } else if objs.last().index() == index {
        Some(objs.len() - 1)
    } else {
        find_object(objs.drop_last(), index)
    }
}

/// Where `find_object` finds an entry, the entry has that index; where it
/// finds none, no entry has it.
pub proof fn lemma_find_object(objs: Seq<ObjectView>, index: u16)
    ensures
        find_object(objs, index) matches Some(i) ==> 0 <= i < objs.len() && objs[i].index() == index,
        find_object(objs, index) is None ==> forall|i: int| 0 <= i < objs.len() ==> #[trigger] objs[i].index() != index,
    decreases objs.len(),
{
    if objs.len() > 0 {
        lemma_find_object(objs.drop_last(), index);
        if objs.last().index() != index {
            assert forall|i: int| 0 <= i < objs.len() - 1 implies #[trigger] objs[i].index() == objs.drop_last()[i].index() by {}
        }
    }
}

proof fn lemma_find_object_same_indices(a: Seq<ObjectView>, b: Seq<ObjectView>, index: u16)
    requires
        a.len() == b.len(),
        forall|k: int| 0 <= k < a.len() ==> #[trigger] a[k].index() == b[k].index(),
    ensures
        find_object(a, index) == find_object(b, index),
    decreases a.len(),
{
    if a.len() > 0 {
        assert forall|k: int| 0 <= k < a.len() - 1 implies #[trigger] a.drop_last()[k].index() == b.drop_last()[k].index() by {
            assert(a.drop_last()[k] == a[k]);
            assert(b.drop_last()[k] == b[k]);
        }
        lemma_find_object_same_indices(a.drop_last(), b.drop_last(), index);
    }
}

/// `objs` with `o` at its index: replacing the entry found there, else
/// appended.
pub open spec fn put_object(objs: Seq<ObjectView>, o: ObjectView) -> Seq<ObjectView> {
    match find_object(objs, o.index()) {
        Some(i) => objs.update(i, o),
        None => objs.push(o),
    }
}

/// What the dictionary holds, as plain values.
pub struct DirectoryView {
    pub node_id: u8,
    pub objects: Seq<ObjectView>,
}

/// The dictionary after an access to `(index, sub)`: an array there may
/// make up an element.
pub open spec fn od_after_access(od: DirectoryView, index: u16, sub: u8) -> DirectoryView {
    match find_object(od.objects, index) {
        Some(i) => match od.objects[i] {
            ObjectView::Array(a) => DirectoryView {
                objects: od.objects.update(i, ObjectView::Array(after_access(a, sub))),
                ..od
            },
            _ => od,
        },
        None => od,
    }
}

/// The variable at `(index, sub)` after an access, or the abort code that
/// the access meets.
pub open spec fn spec_variable(od: DirectoryView, index: u16, sub: u8) -> Result<VariableView, AbortCode> {
    let od2 = od_after_access(od, index, sub);
    match find_object(od2.objects, index) {
        None => Err(AbortCode::ObjectDoesNotExistInObjectDictionary),
        Some(i) => match od2.objects[i] {
            ObjectView::Variable(v) => if sub == 0 {
                Ok(v)
            } else {
                Err(AbortCode::SubIndexDoesNotExist)
            },
            ObjectView::Array(a) => match find_member(a.members, sub) {
                Some(j) => Ok(a.members[j]),
                None => Err(AbortCode::ObjectDoesNotExistInObjectDictionary),
            },
            ObjectView::Record(a) => match find_member(a.members, sub) {
                Some(j) => Ok(a.members[j]),
                None => Err(AbortCode::ObjectDoesNotExistInObjectDictionary),
            },
        },
    }
}

/// The dictionary with the value of the variable at `(index, sub)` set to
/// `value`; unchanged when there is none.
pub open spec fn od_with_value(od: DirectoryView, index: u16, sub: u8, value: Seq<u8>) -> DirectoryView {
    match find_object(od.objects, index) {
        Some(i) => match od.objects[i] {
            ObjectView::Variable(v) => if sub == 0 {
                DirectoryView {
                    objects: od.objects.update(i, ObjectView::Variable(VariableView { value, ..v })),
                    ..od
                }
            } else {
                od
            },
            ObjectView::Array(a) => match find_member(a.members, sub) {
                Some(j) => DirectoryView {
                    objects: od.objects.update(
                        i,
                        ObjectView::Array(
                            ContainerView {
                                members: a.members.update(j, VariableView { value, ..a.members[j] }),
                                ..a
                            },
                        ),
                    ),
                    ..od
                },
                None => od,
            },
            ObjectView::Record(a) => match find_member(a.members, sub) {
                Some(j) => DirectoryView {
                    objects: od.objects.update(
                        i,
                        ObjectView::Record(
                            ContainerView {
                                members: a.members.update(j, VariableView { value, ..a.members[j] }),
                                ..a
                            },
                        ),
                    ),
                    ..od
                },
                None => od,
            },
        },
        None => od,
    }
}

/// Whether a write of `len` bytes to `v` is refused, and with which code:
/// unless `bypass`, the variable must be writable; a type of fixed size
/// takes exactly that many bytes.
pub open spec fn write_check(v: VariableView, len: nat, bypass: bool) -> Option<AbortCode> {
    if !bypass && !v.access_type.write_access {
        Some(AbortCode::AttemptToWriteReadOnlyObject)
    } else if v.data_type.spec_size() != 0 && v.data_type.spec_size() > len {
        Some(AbortCode::DataTypeMismatchLengthTooLow)
    } else if v.data_type.spec_size() != 0 && v.data_type.spec_size() < len {
        Some(AbortCode::DataTypeMismatchLengthTooHigh)
    } else {
        None
    }
}

/// The object dictionary of a node.
#[derive(Clone, Debug)]
pub struct ObjectDirectory {
    pub node_id: u8,
    pub index_to_object: Vec<ObjectType>,
}

impl View for ObjectDirectory {
    type V = DirectoryView;

    open spec fn view(&self) -> DirectoryView {
        DirectoryView { node_id: self.node_id, objects: object_views(self.index_to_object@) }
    }
}

fn copy_objects(objs: &Vec<ObjectType>) -> (r: Vec<ObjectType>)
    ensures
        object_views(r@) == object_views(objs@),
{
    let mut r: Vec<ObjectType> = Vec::new();
    let mut i: usize = 0;
    while i < objs.len()
        invariant
            i <= objs@.len(),
            object_views(r@) == object_views(objs@).subrange(0, i as int),
        decreases objs@.len() - i,
    {
        let c = objs[i].copy();
        let ghost before = r@;
        r.push(c);
        proof {
            lemma_object_views(r@);
            lemma_object_views(before);
            lemma_object_views(objs@);
        }
        assert(object_views(r@) =~= object_views(objs@).subrange(0, i + 1)) by {
            assert forall|k: int| 0 <= k < i + 1 implies object_views(r@)[k] == object_views(objs@).subrange(0, i + 1)[k] by {
                if k < i {
                    assert(r@[k] == before[k]);
                }
            }
        }
        i = i + 1;
    }
    proof {
        lemma_object_views(objs@);
    }
    assert(object_views(objs@).subrange(0, i as int) =~= object_views(objs@));
    r
}

impl ObjectDirectory {
    /// An empty dictionary for node `node_id`.
    pub fn empty(node_id: u8) -> (r: Self)
        ensures
            r@.node_id == node_id,
            r@.objects.len() == 0,
    {
        let r = ObjectDirectory { node_id, index_to_object: Vec::new() };
        proof {
            lemma_object_views(r.index_to_object@);
        }
        r
    }

    pub fn node_id(&self) -> (r: u8)
        ensures
            r == self.node_id,
    {
        self.node_id
    }

    /// A deep copy.
    pub fn copy(&self) -> (r: Self)
        ensures
            r@ == self@,
    {
        ObjectDirectory { node_id: self.node_id, index_to_object: copy_objects(&self.index_to_object) }
    }

    fn find_object_exec(&self, index: u16) -> (r: Option<usize>)
        ensures
            r matches Some(i) ==> find_object(self@.objects, index) == Some(i as int) && i < self@.objects.len(),
            r is None ==> find_object(self@.objects, index) is None,
    {
        let ghost os = self@.objects;
        proof {
            lemma_object_views(self.index_to_object@);
        }
        let mut i: usize = self.index_to_object.len();
        assert(os.subrange(0, i as int) =~= os);
        while i > 0
            invariant
                i <= self.index_to_object@.len(),
                os == self@.objects,
                os.len() == self.index_to_object@.len(),
                find_object(os, index) == find_object(os.subrange(0, i as int), index),
            decreases i,
        {
            assert(os.subrange(0, i as int).drop_last() =~= os.subrange(0, i - 1));
            proof {
                lemma_object_views(self.index_to_object@);
            }
            if self.index_to_object[i - 1].index() == index {
                return Some(i - 1);
            }
            i = i - 1;
        }
        None
    }

    /// Sets the entry at `index`, replacing any entry there.
    pub fn add_member(&mut self, index: u16, name: String, obj: ObjectType)
        requires
            obj@.index() == index,
        ensures
            final(self)@ == (DirectoryView { objects: put_object(old(self)@.objects, obj@), ..old(self)@ }),
    {
        let ghost o = obj@;
        proof {
            lemma_object_views(self.index_to_object@);
            lemma_find_object(self@.objects, index);
        }
        match self.find_object_exec(index) {
            Some(i) => {
                self.index_to_object.set(i, obj);
            },
            None => {
                self.index_to_object.push(obj);
            },
        }
        proof {
            lemma_object_views(self.index_to_object@);
        }
        assert(self@.objects =~= put_object(old(self)@.objects, o));
    }

    /// Makes the access to `(index, sub_index)` and finds where the variable
    /// stands: the entry's position, and the member's position for an array
    /// or a record.
    #[verifier::spinoff_prover]
    fn locate(&mut self, index: u16, sub_index: u8) -> (r: Result<(usize, Option<usize>), AbortCode>)
        ensures
            final(self)@ == od_after_access(old(self)@, index, sub_index),
            r matches Err(c) ==> spec_variable(old(self)@, index, sub_index) == Err::<VariableView, AbortCode>(c),
            r matches Ok((i, m)) ==> i < final(self).index_to_object@.len() && find_object(final(self)@.objects, index) == Some(i as int) && match final(self)@.objects[i as int] {
                ObjectView::Variable(v) => m is None && spec_variable(old(self)@, index, sub_index) == Ok::<VariableView, AbortCode>(v),
                ObjectView::Array(a) => m matches Some(j) && find_member(a.members, sub_index) == Some(j as int) && j < a.members.len() && spec_variable(old(self)@, index, sub_index) == Ok::<VariableView, AbortCode>(a.members[j as int]),
                ObjectView::Record(a) => m matches Some(j) && find_member(a.members, sub_index) == Some(j as int) && j < a.members.len() && spec_variable(old(self)@, index, sub_index) == Ok::<VariableView, AbortCode>(a.members[j as int]),
            },
    {
        proof {
            lemma_object_views(self.index_to_object@);
            lemma_find_object(self@.objects, index);
        }
        let i = match self.find_object_exec(index) {
            Some(i) => i,
            None => return Err(AbortCode::ObjectDoesNotExistInObjectDictionary),
        };
        let ghost od0 = self@;
        self.index_to_object[i].materialise(sub_index);
        proof {
            lemma_object_views(self.index_to_object@);
            lemma_object_views(old(self).index_to_object@);
            assert(self@.objects =~= od_after_access(od0, index, sub_index).objects);
            lemma_find_object(self@.objects, index);
        }
        let ghost od2 = od_after_access(od0, index, sub_index);
        assert(od2.objects == self@.objects);
        assert(find_object(od2.objects, index) == Some(i as int)) by {
            lemma_find_object_same_indices(od0.objects, od2.objects, index);
        }
        assert(od2.objects[i as int] == self.index_to_object@[i as int]@);
        match &self.index_to_object[i] {
            ObjectType::Variable(_) => {
                if sub_index == 0 {
                    Ok((i, None))
                } else {
                    Err(AbortCode::SubIndexDoesNotExist)
                }
            },
            ObjectType::Array(a) => {
                proof {
                    lemma_find_member(a@.members, sub_index);
                    lemma_views_len(a.index_to_variable@);
                }
                match find_member_exec(&a.index_to_variable, sub_index) {
                    Some(j) => Ok((i, Some(j))),
                    None => Err(AbortCode::ObjectDoesNotExistInObjectDictionary),
                }
            },
            ObjectType::Record(rec) => {
                proof {
                    lemma_find_member(rec@.members, sub_index);
                    lemma_views_len(rec.index_to_variable@);
                }
                match find_member_exec(&rec.index_to_variable, sub_index) {
                    Some(j) => Ok((i, Some(j))),
                    None => Err(AbortCode::ObjectDoesNotExistInObjectDictionary),
                }
            },
        }
    }
}

impl ObjectDirectory {
    fn write_at(&mut self, i: usize, m: Option<usize>, value: Vec<u8>)
        requires
            i < old(self).index_to_object@.len(),
            position_fits(old(self)@.objects[i as int], m),
        ensures
            final(self)@ == (DirectoryView { objects: old(self)@.objects.update(i as int, with_member_value(old(self)@.objects[i as int], m, value@)), ..old(self)@ }),
    {
        proof {
            lemma_object_views(self.index_to_object@);
        }
        let ghost val = value@;
        self.index_to_object[i].set_member_value(m, value);
        proof {
            lemma_object_views(self.index_to_object@);
        }
        assert(self@.objects =~= old(self)@.objects.update(i as int, with_member_value(old(self)@.objects[i as int], m, val)));
    }

    /// The readable variable at `(index, sub_index)`. Arrays make up
    /// elements on access.
    pub fn get_variable(&mut self, index: u16, sub_index: u8) -> (r: Result<Variable, ErrorCode>)
        ensures
            final(self)@ == od_after_access(old(self)@, index, sub_index),
            match spec_variable(old(self)@, index, sub_index) {
                Ok(v) => if v.access_type.read_access {
                    r matches Ok(x) && x@ == v
                } else {
                    r matches Err(e) && is_abort(e, AbortCode::AttemptToReadWriteOnlyObject)
                },
                Err(c) => r matches Err(e) && is_abort(e, c),
            },
    {
        let (i, m) = match self.locate(index, sub_index) {
            Ok(p) => p,
            Err(c) => return Err(make_abort_error(c, String::new())),
        };
        proof {
            lemma_object_views(self.index_to_object@);
        }
        let var = self.index_to_object[i].member(m);
        if !var.access_type.is_readable() {
            return Err(make_abort_error(AbortCode::AttemptToReadWriteOnlyObject, String::new()));
        }
        Ok(var.copy())
    }

    /// Writes `data` to the variable at `(index, sub_index)`: it must be
    /// writable unless `ignore_access_check`, and a type of fixed size takes
    /// exactly that many bytes. Returns the variable as written.
    pub fn set_value(&mut self, index: u16, sub_index: u8, data: &[u8], ignore_access_check: bool) -> (r: Result<Variable, ErrorCode>)
        ensures
            match spec_variable(old(self)@, index, sub_index) {
                Ok(v) => match write_check(v, data@.len(), ignore_access_check) {
                    None => final(self)@ == od_with_value(od_after_access(old(self)@, index, sub_index), index, sub_index, data@)
                        && (r matches Ok(x) && x@ == (VariableView { value: data@, ..v })),
                    Some(c) => final(self)@ == od_after_access(old(self)@, index, sub_index) && (r matches Err(e) && is_abort(e, c)),
                },
                Err(c) => final(self)@ == od_after_access(old(self)@, index, sub_index) && (r matches Err(e) && is_abort(e, c)),
            },
    {
        let (i, m) = match self.locate(index, sub_index) {
            Ok(p) => p,
            Err(c) => return Err(make_abort_error(c, String::new())),
        };
        proof {
            lemma_object_views(self.index_to_object@);
        }
        let var = self.index_to_object[i].member(m);
        if !ignore_access_check && !var.access_type.is_writable() {
            return Err(make_abort_error(AbortCode::AttemptToWriteReadOnlyObject, String::new()));
        }
        let size = var.data_type.size();
        if size != 0 && size > data.len() {
            return Err(make_abort_error(AbortCode::DataTypeMismatchLengthTooLow, String::new()));
        }
        if size != 0 && size < data.len() {
            return Err(make_abort_error(AbortCode::DataTypeMismatchLengthTooHigh, String::new()));
        }
        let ghost od2 = self@;
        let ghost o2 = od2.objects[i as int];
        assert(position_fits(with_member_value(o2, m, data@), m));
        assert(member_view(with_member_value(o2, m, data@), m) == (VariableView { value: data@, ..member_view(o2, m) }));
        self.write_at(i, m, crate::util::copy_bytes(data));
        proof {
            lemma_object_views(self.index_to_object@);
            lemma_find_object(od2.objects, index);
        }
        assert(self@ == od_with_value(od2, index, sub_index, data@));
        assert(self@.objects[i as int] == with_member_value(o2, m, data@));
        assert(self.index_to_object@[i as int]@ == with_member_value(o2, m, data@));
        let written = self.index_to_object[i].member(m);
        Ok(written.copy())
    }

    /// Writes the first `size` bytes of `data` to the variable at
    /// `(index, sub_index)`, where `size` is its type's size. Missing or
    /// read-only variables and short data leave it as it is.
    pub fn set_value_with_fitting_size(&mut self, index: u16, sub_index: u8, data: &[u8])
        ensures
            match spec_variable(old(self)@, index, sub_index) {
                Ok(v) => if v.access_type.write_access && v.data_type.spec_size() <= data@.len() {
                    final(self)@ == od_with_value(od_after_access(old(self)@, index, sub_index), index, sub_index, data@.subrange(0, v.data_type.spec_size() as int))
                } else {
                    final(self)@ == od_after_access(old(self)@, index, sub_index)
                },
                Err(_) => final(self)@ == od_after_access(old(self)@, index, sub_index),
            },
    {
        let (i, m) = match self.locate(index, sub_index) {
            Ok(p) => p,
            Err(_) => return,
        };
        proof {
            lemma_object_views(self.index_to_object@);
        }
        let var = self.index_to_object[i].member(m);
        if !var.access_type.is_writable() {
            return;
        }
        let size = var.data_type.size();
        if size > data.len() {
            return;
        }
        let mut bytes: Vec<u8> = Vec::new();
        let mut k: usize = 0;
        while k < size
            invariant
                k <= size <= data@.len(),
                bytes@ == data@.subrange(0, k as int),
            decreases size - k,
        {
            bytes.push(data[k]);
            k = k + 1;
        }
        let ghost od2 = self@;
        self.write_at(i, m, bytes);
        proof {
            lemma_object_views(self.index_to_object@);
            lemma_find_object(od2.objects, index);
        }
    }

    /// The entry named `name`.
    pub fn get_object_by_name(&self, name: &str) -> (r: Option<&ObjectType>)
        ensures
            r matches Some(o) ==> o@.name() == name@ && exists|i: int| 0 <= i < self@.objects.len() && self@.objects[i] == o@,
            r is None ==> forall|i: int| 0 <= i < self@.objects.len() ==> #[trigger] self@.objects[i].name() != name@,
    {
        proof {
            lemma_object_views(self.index_to_object@);
        }
        let mut i: usize = self.index_to_object.len();
        while i > 0
            invariant
                i <= self.index_to_object@.len(),
                self@.objects.len() == self.index_to_object@.len(),
                forall|k: int| 0 <= k < self.index_to_object@.len() ==> #[trigger] self@.objects[k] == self.index_to_object@[k]@,
                forall|k: int| i <= k < self@.objects.len() ==> #[trigger] self@.objects[k].name() != name@,
            decreases i,
        {
            if str_eq(self.index_to_object[i - 1].name(), name) {
                assert(self@.objects[i - 1] == self.index_to_object@[i - 1]@);
                return Some(&self.index_to_object[i - 1]);
            }
            i = i - 1;
        }
        None
    }

    /// The entry at `index`.
    pub fn get_object(&self, index: u16) -> (r: Option<&ObjectType>)
        ensures
            r matches Some(o) ==> find_object(self@.objects, index) matches Some(i) && self@.objects[i] == o@,
            r is None ==> find_object(self@.objects, index) is None,
    {
        proof {
            lemma_object_views(self.index_to_object@);
        }
        match self.find_object_exec(index) {
            Some(i) => Some(&self.index_to_object[i]),
            None => None,
        }
    }

    /// The entry at `index`, for update.
    pub fn get_mut_object(&mut self, index: u16) -> (r: Option<&mut ObjectType>)
        ensures
            r matches Some(o) ==> find_object(old(self)@.objects, index) matches Some(i) && old(self)@.objects[i] == (*o)@,
            r is None ==> find_object(old(self)@.objects, index) is None,
    {
        proof {
            lemma_object_views(self.index_to_object@);
        }
        match self.find_object_exec(index) {
            Some(i) => Some(&mut self.index_to_object[i]),
            None => None,
        }
    }

    /// Adds `var` to the array or record at `index`.
    pub fn add_sub_member(&mut self, index: u16, var: Variable) -> (r: Result<(), String>)
        ensures
            match find_object(old(self)@.objects, index) {
                Some(i) => match old(self)@.objects[i] {
                    ObjectView::Array(a) => r is Ok && final(self)@ == (DirectoryView { objects: old(self)@.objects.update(i, ObjectView::Array(ContainerView { members: put_member(a.members, var@), ..a })), ..old(self)@ }),
                    ObjectView::Record(a) => r is Ok && final(self)@ == (DirectoryView { objects: old(self)@.objects.update(i, ObjectView::Record(ContainerView { members: put_member(a.members, var@), ..a })), ..old(self)@ }),
                    ObjectView::Variable(_) => r is Err && final(self)@ == old(self)@,
                },
                None => r is Err && final(self)@ == old(self)@,
            },
    {
        proof {
            lemma_object_views(self.index_to_object@);
        }
        let i = match self.find_object_exec(index) {
            Some(i) => i,
            None => return Err(String::from_str("no object at this index")),
        };
        let ghost v = var@;
        let res = self.index_to_object[i].add_to_container(var);
        proof {
            lemma_object_views(self.index_to_object@);
        }
        assert(self@.objects =~= old(self)@.objects.update(i as int, self.index_to_object@[i as int]@));
        assert(old(self)@.objects.update(i as int, old(self)@.objects[i as int]) =~= old(self)@.objects);
        res
    }
}

pub open spec fn or_empty(v: Option<Seq<char>>) -> Seq<char> {
    match v {
        Some(x) => x,
        None => Seq::empty(),
    }
}

/// The variable that a data sheet section describes.
pub open spec fn spec_build_variable(p: Seq<(Seq<char>, Seq<char>)>, node_id: u8, name: Seq<char>, index: u16, sub_index: Option<u8>) -> VariableView {
    let dt = DataType::spec_from_u32(spec_parse_number::<u32>(or_empty(lookup(p, "DataType"@))));
    VariableView {
        name,
        storage_location: or_empty(lookup(p, "StorageLocation"@)),
        data_type: dt,
        value: match spec_formatted_value(p, "DefaultValue"@, node_id, dt) {
            Some(v) => v,
            None => dt.spec_default_value(),
        },
        min: spec_formatted_value(p, "LowLimit"@, node_id, dt),
        max: spec_formatted_value(p, "HighLimit"@, node_id, dt),
        pdo_mappable: match lookup(p, "PDOMapping"@) {
            Some(t) => match <i32 as ParseRadix>::spec_from_decimal(t) {
                Some(v) => v != 0,
                None => false,
            },
            None => false,
        },
        access_type: match lookup(p, "AccessType"@) {
            Some(t) => AccessType::spec_parse(t),
            None => AccessType::spec_parse("rw"@),
        },
        parameter_value: spec_formatted_value(p, "ParameterValue"@, node_id, dt),
        index,
        sub_index: match sub_index {
            Some(s) => s,
            None => 0,
        },
    }
}

fn get_or_empty(properties: &Properties, key: &str) -> (r: String)
    ensures
        r@ == or_empty(lookup(properties@, key@)),
{
    match properties.get(key) {
        Some(v) => v.clone(),
        None => String::new(),
    }
}

/// Builds the variable that a data sheet section describes.
pub fn build_variable(properties: &Properties, node_id: u8, name: &str, index: u16, sub_index: Option<u8>) -> (r: Result<Variable, ErrorCode>)
    ensures
        r matches Ok(v) && v@ == spec_build_variable(properties@, node_id, name@, index, sub_index),
{
    let storage_location = get_or_empty(properties, "StorageLocation");
    let access_type = match properties.get("AccessType") {
        Some(t) => AccessType::parse(t.as_str()),
        None => AccessType::parse("rw"),
    };
    let pdo_mapping = match properties.get("PDOMapping") {
        Some(t) => match <i32 as ParseRadix>::from_decimal(t.as_str()) {
            Some(v) => v != 0,
            None => false,
        },
        None => false,
    };
    let dt_text = get_or_empty(properties, "DataType");
    let dt_val: u32 = parse_number(dt_text.as_str());
    let dt = DataType::from_u32(dt_val);
    let min = get_formatted_value_from_properties(properties, "LowLimit", node_id, &dt);
    let max = get_formatted_value_from_properties(properties, "HighLimit", node_id, &dt);
    let default_value = match get_formatted_value_from_properties(properties, "DefaultValue", node_id, &dt) {
        Some(v) => v,
        None => Value::new(dt.default_value()),
    };
    let parameter_value = get_formatted_value_from_properties(properties, "ParameterValue", node_id, &dt);
    let sub = match sub_index {
        Some(s) => s,
        None => 0,
    };
    Ok(Variable {
        name: name.to_owned(),
        storage_location,
        data_type: dt,
        access_type,
        pdo_mappable: pdo_mapping,
        min,
        max,
        default_value,
        parameter_value,
        index,
        sub_index: sub,
    })
}

/// The error for a data sheet section that cannot be read.
pub fn make_section_error(section_name: &str, more_info: &str) -> (r: ErrorCode)
    ensures
        r matches ErrorCode::ProcesedSectionFailed { section_name: s, more_info: m } && s@ == section_name@ && m@ == more_info@,
{
    ErrorCode::ProcesedSectionFailed { section_name: section_name.to_owned(), more_info: more_info.to_owned() }
}

/// The sub-index 0 entry that a compact array starts with.
pub open spec fn entry_count_variable(index: u16) -> VariableView {
    VariableView {
        name: "Number of entries"@,
        storage_location: Seq::empty(),
        data_type: DataType::Unsigned8,
        value: seq![0u8],
        min: None,
        max: None,
        pdo_mappable: false,
        access_type: AccessType { read_access: false, write_access: false },
        parameter_value: None,
        index,
        sub_index: 0,
    }
}

/// The members named in a names section, for sub-indices `1..=k`: a copy
/// of `proto` for each sub-index whose decimal key has a name.
pub open spec fn named_members(proto: VariableView, p: Seq<(Seq<char>, Seq<char>)>, k: nat) -> Seq<VariableView>
    decreases k,
{
    if k == 0 {
        Seq::empty()
    } else {
        let prev = named_members(proto, p, (k - 1) as nat);
        match lookup(p, decimal_text(k as int)) {
            Some(nm) => prev.push(VariableView { name: nm, sub_index: k as u8, ..proto }),
            None => prev,
        }
    }
}

pub open spec fn put_members(members: Seq<VariableView>, vs: Seq<VariableView>) -> Seq<VariableView>
    decreases vs.len(),
{
    if vs.len() == 0 {
        members
    } else {
        put_member(put_members(members, vs.drop_last()), vs.last())
    }
}

/// The dictionary after a data sheet section, or `None` where the section
/// is malformed.
#[verifier::opaque]
pub open spec fn spec_process_section(od: DirectoryView, section: Seq<char>, p: Seq<(Seq<char>, Seq<char>)>) -> Option<DirectoryView> {
    if spec_is_top(section) {
        let index = digits_value(section, 16) as u16;
        match (lookup(p, "ParameterName"@), lookup(p, "ObjectType"@)) {
            (Some(name), Some(ot)) => {
                let kind = spec_parse_number::<i32>(ot);
                let storage = or_empty(lookup(p, "StorageLocation"@));
                if kind == 7 {
                    Some(DirectoryView { objects: put_object(od.objects, ObjectView::Variable(spec_build_variable(p, od.node_id, name, index, None))), ..od })
                } else if kind == 8 {
                    let members = if lookup(p, "CompactSubObj"@) is Some {
                        put_member(seq![entry_count_variable(index)], spec_build_variable(p, od.node_id, name, index, Some(1u8)))
                    } else {
                        Seq::empty()
                    };
                    Some(DirectoryView { objects: put_object(od.objects, ObjectView::Array(ContainerView { name, index, storage_location: storage, members })), ..od })
                } else if kind == 9 {
                    Some(DirectoryView { objects: put_object(od.objects, ObjectView::Record(ContainerView { name, index, storage_location: storage, members: Seq::empty() })), ..od })
                } else {
                    Some(od)
                }
            },
            _ => None,
        }
    } else if spec_is_sub(section) is Some {
        let (index, sub) = spec_is_sub(section)->Some_0;
        match lookup(p, "ParameterName"@) {
            Some(name) => {
                let v = spec_build_variable(p, od.node_id, name, index, Some(sub));
                match find_object(od.objects, index) {
                    Some(i) => match od.objects[i] {
                        ObjectView::Array(a) => Some(DirectoryView { objects: od.objects.update(i, ObjectView::Array(ContainerView { members: put_member(a.members, v), ..a })), ..od }),
                        ObjectView::Record(a) => Some(DirectoryView { objects: od.objects.update(i, ObjectView::Record(ContainerView { members: put_member(a.members, v), ..a })), ..od }),
                        ObjectView::Variable(_) => None,
                    },
                    None => None,
                }
            },
            None => None,
        }
    } else if spec_is_name(section) is Some {
        let index = spec_is_name(section)->Some_0;
        match lookup(p, "NrOfEntries"@) {
            Some(t) => match <u8 as ParseRadix>::spec_from_decimal(t) {
                Some(n) => match find_object(od.objects, index) {
                    Some(i) => match od.objects[i] {
                        ObjectView::Array(a) => match find_member(a.members, 1) {
                            Some(j) => Some(DirectoryView { objects: od.objects.update(i, ObjectView::Array(ContainerView { members: put_members(a.members, named_members(a.members[j], p, n as nat)), ..a })), ..od }),
                            None => Some(od),
                        },
                        _ => Some(od),
                    },
                    None => Some(od),
                },
                None => None,
            },
            None => None,
        }
    } else {
        Some(od)
    }
}

impl ObjectDirectory {
    /// Reads one data sheet section into the dictionary: a top-level entry
    /// (`XXXX`), a sub-entry (`XXXXsubYY`) or the names of a compact array
    /// (`XXXXName`). Other sections are ignored.
    #[verifier::spinoff_prover]
    pub fn process_section(&mut self, section_name: &str, properties: &Properties) -> (r: Result<(), ErrorCode>)
        ensures
            match spec_process_section(old(self)@, section_name@, properties@) {
                Some(od) => r is Ok && final(self)@ == od,
                None => final(self)@ == old(self)@ && (r matches Err(ErrorCode::ProcesedSectionFailed { section_name: s, .. }) && s@ == section_name@),
            },
    {
        reveal(spec_process_section);
        if is_top(section_name) {
            let cs = chars_of(section_name);
            assert(cs@.subrange(0, 4) =~= section_name@);
            let index = digits_value_u16(&cs);
            let name = match properties.get("ParameterName") {
                Some(n) => n,
                None => return Err(make_section_error(section_name, "No ParameterName")),
            };
            let ot_text = match properties.get("ObjectType") {
                Some(t) => t,
                None => return Err(make_section_error(section_name, "No ObjectType")),
            };
            let ot: i32 = parse_number(ot_text.as_str());
            if ot == 7 {
                let variable = match build_variable(properties, self.node_id, name.as_str(), index, None) {
                    Ok(v) => v,
                    Err(_) => return Err(make_section_error(section_name, "Invalid variable")),
                };
                self.add_member(index, name.clone(), ObjectType::Variable(variable));
            } else if ot == 8 {
                let mut array = Array {
                    name: name.clone(),
                    index,
                    storage_location: get_or_empty(properties, "StorageLocation"),
                    index_to_variable: Vec::new(),
                };
                proof {
                    lemma_views_len(array.index_to_variable@);
                }
                assert(array@.members =~= Seq::<VariableView>::empty());
                if properties.contains_key("CompactSubObj") {
                    let count = Variable {
                        name: String::from_str("Number of entries"),
                        index,
                        sub_index: 0,
                        data_type: DataType::Unsigned8,
                        default_value: Value::new(vec![0u8]),
                        min: None,
                        max: None,
                        pdo_mappable: false,
                        access_type: AccessType::new(false, false),
                        storage_location: String::new(),
                        parameter_value: None,
                    };
                    assert(count@ == entry_count_variable(index)) by {
                        assert(count.default_value@ =~= seq![0u8]);
                    }
                    array.add_member(count);
                    assert(put_member(Seq::<VariableView>::empty(), entry_count_variable(index)) =~= seq![entry_count_variable(index)]);
                    let first = match build_variable(properties, self.node_id, name.as_str(), index, Some(1u8)) {
                        Ok(v) => v,
                        Err(_) => return Err(make_section_error(section_name, "Invalid variable")),
                    };
                    array.add_member(first);
                }
                self.add_member(index, name.clone(), ObjectType::Array(array));
            } else if ot == 9 {
                let record = Record {
                    name: name.clone(),
                    index,
                    storage_location: get_or_empty(properties, "StorageLocation"),
                    index_to_variable: Vec::new(),
                };
                proof {
                    lemma_views_len(record.index_to_variable@);
                }
                assert(record@.members =~= Seq::<VariableView>::empty());
                self.add_member(index, name.clone(), ObjectType::Record(record));
            }
            Ok(())
        } else {
            match is_sub(section_name) {
                Some((index, sub_index)) => {
                    let name = match properties.get("ParameterName") {
                        Some(n) => n,
                        None => return Err(make_section_error(section_name, "No name")),
                    };
                    let variable = match build_variable(properties, self.node_id, name.as_str(), index, Some(sub_index)) {
                        Ok(v) => v,
                        Err(_) => return Err(make_section_error(section_name, "Invalid variable")),
                    };
                    match self.add_sub_member(index, variable) {
                        Ok(()) => Ok(()),
                        Err(_) => Err(make_section_error(section_name, "add_sub_member error")),
                    }
                },
                None => match is_name(section_name) {
                    Some(index) => {
                        let t = match properties.get("NrOfEntries") {
                            Some(t) => t,
                            None => return Err(make_section_error(section_name, "No NrOfEntries")),
                        };
                        let n: u8 = match <u8 as ParseRadix>::from_decimal(t.as_str()) {
                            Some(n) => n,
                            None => return Err(make_section_error(section_name, "Invalid NrOfEntries")),
                        };
                        proof {
                            lemma_object_views(self.index_to_object@);
                            lemma_find_object(self@.objects, index);
                        }
                        match self.find_object_exec(index) {
                            Some(i) => {
                                self.index_to_object[i].add_named_members(properties, n);
                                proof {
                                    lemma_object_views(self.index_to_object@);
                                }
                                assert(self@.objects =~= old(self)@.objects.update(i as int, self.index_to_object@[i as int]@));
                                assert(old(self)@.objects.update(i as int, old(self)@.objects[i as int]) =~= old(self)@.objects);
                            },
                            None => {},
                        }
                        Ok(())
                    },
                    None => Ok(()),
                },
            }
        }
    }
}

/// One element of an INI document as the data sheet reader needs it.
#[derive(Clone, Debug)]
pub enum IniItem {
    /// A `[name]` header.
    Section(String),
    /// A `key=value` line; the value is `None` where the line has no `=`.
    Property(String, Option<String>),
    /// A comment, a blank line, a malformed header or a section end.
    Other,
}

/// An `IniItem` as plain values.
pub enum IniEntry {
    Section(Seq<char>),
    Property(Seq<char>, Option<Seq<char>>),
    Other,
}

impl View for IniItem {
    type V = IniEntry;

    open spec fn view(&self) -> IniEntry {
        match self {
            IniItem::Section(n) => IniEntry::Section(n@),
            IniItem::Property(k, v) => IniEntry::Property(
                k@,
                match v {
                    Some(x) => Some(x@),
                    None => None,
                },
            ),
            IniItem::Other => IniEntry::Other,
        }
    }
}

pub open spec fn ini_views(items: Seq<IniItem>) -> Seq<IniEntry> {
    items.map_values(|i: IniItem| i@)
}

/// The elements that `ini_core`'s parser reads from a document.
pub uninterp spec fn ini_items_of(content: Seq<char>) -> Seq<IniEntry>;

/// Relies on ini_core::Parser: it splits the document into elements, each
/// converted one for one; the result depends on the text alone.
#[verifier::external_body]
fn parse_ini(content: &str) -> (r: Vec<IniItem>)
    ensures
        ini_views(r@) == ini_items_of(content@),
{
    ini_core::Parser::new(content).map(|item| match item {
        ini_core::Item::Section(name) => IniItem::Section(name.to_string()),
        ini_core::Item::Property(key, value) => IniItem::Property(key.to_string(), value.map(|v| v.to_string())),
        _ => IniItem::Other,
    }).collect()
}

/// Where the reading of a data sheet stands: the dictionary so far (`None`
/// after an error), the open section and its properties.
pub struct LoadState {
    pub od: Option<DirectoryView>,
    pub section: Option<Seq<char>>,
    pub props: Seq<(Seq<char>, Seq<char>)>,
}

/// The state after the elements `items`, from dictionary `od`.
pub open spec fn load_state(od: DirectoryView, items: Seq<IniEntry>) -> LoadState
    decreases items.len(),
{
    if items.len() == 0 {
        LoadState { od: Some(od), section: None, props: Seq::empty() }
    } else {
        let st = load_state(od, items.drop_last());
        match st.od {
            None => st,
            Some(cur) => match items.last() {
                IniEntry::Section(name) => match st.section {
                    Some(prev) => LoadState { od: spec_process_section(cur, prev, st.props), section: Some(name), props: Seq::empty() },
                    None => LoadState { od: Some(cur), section: Some(name), props: Seq::empty() },
                },
                IniEntry::Property(k, v) => LoadState { props: st.props.push((k, or_empty(v))), ..st },
                IniEntry::Other => st,
            },
        }
    }
}

/// The dictionary after reading all of `items`, or `None` on a malformed
/// section.
pub open spec fn spec_load(od: DirectoryView, items: Seq<IniEntry>) -> Option<DirectoryView> {
    let st = load_state(od, items);
    match st.od {
        None => None,
        Some(cur) => match st.section {
            Some(name) => spec_process_section(cur, name, st.props),
            None => Some(cur),
        },
    }
}

proof fn lemma_load_stays_failed(od: DirectoryView, items: Seq<IniEntry>, k: int)
    requires
        0 <= k <= items.len(),
        load_state(od, items.subrange(0, k)).od is None,
    ensures
        load_state(od, items).od is None,
    decreases items.len() - k,
{
    if k < items.len() {
        assert(items.subrange(0, k + 1).drop_last() =~= items.subrange(0, k));
        assert(load_state(od, items.subrange(0, k + 1)).od is None);
        lemma_load_stays_failed(od, items, k + 1);
    } else {
        assert(items.subrange(0, k) =~= items);
    }
}

proof fn lemma_load_step(od: DirectoryView, items: Seq<IniEntry>, i: int)
    requires
        0 <= i < items.len(),
    ensures
        load_state(od, items.subrange(0, i + 1)) == ({
            let st = load_state(od, items.subrange(0, i));
            match st.od {
                None => st,
                Some(cur) => match items[i] {
                    IniEntry::Section(name) => match st.section {
                        Some(prev) => LoadState { od: spec_process_section(cur, prev, st.props), section: Some(name), props: Seq::empty() },
                        None => LoadState { od: Some(cur), section: Some(name), props: Seq::empty() },
                    },
                    IniEntry::Property(k, v) => LoadState { props: st.props.push((k, or_empty(v))), ..st },
                    IniEntry::Other => st,
                },
            }
        }),
{
    assert(items.subrange(0, i + 1).drop_last() =~= items.subrange(0, i));
}

impl ObjectDirectory {
    /// Reads data sheet elements into the dictionary, section by section.
    #[verifier::rlimit(40)]
    #[verifier::spinoff_prover]
    pub fn load_from_items(&mut self, items: &Vec<IniItem>) -> (r: Result<(), ErrorCode>)
        ensures
            match spec_load(old(self)@, ini_views(items@)) {
                Some(od) => r is Ok && final(self)@ == od,
                None => r matches Err(ErrorCode::ProcesedSectionFailed { .. }),
            },
    {
        let ghost its = ini_views(items@);
        let ghost od0 = self@;
        let mut current: Option<String> = None;
        let mut props = Properties::new();
        let mut i: usize = 0;
        while i < items.len()
            invariant
                i <= items@.len(),
                od0 == old(self)@,
                its == ini_views(items@),
                its.len() == items@.len(),
                load_state(od0, its.subrange(0, i as int)).od == Some(self@),
                load_state(od0, its.subrange(0, i as int)).section == match current {
                    Some(c) => Some(c@),
                    None => None::<Seq<char>>,
                },
                load_state(od0, its.subrange(0, i as int)).props == props@,
            decreases items@.len() - i,
        {
            proof {
                lemma_load_step(od0, its, i as int);
            }
            assert(its[i as int] == items@[i as int]@);
            match &items[i] {
                IniItem::Section(name) => {
                    match &current {
                        Some(prev) => {
                            let res = self.process_section(prev.as_str(), &props);
                            if res.is_err() {
                                proof {
                                    lemma_load_stays_failed(od0, its, i + 1);
                                }
                                return res;
                            }
                        },
                        None => {},
                    }
                    current = Some(name.clone());
                    props = Properties::new();
                },
                IniItem::Property(key, value) => {
                    let v = match value {
                        Some(x) => x.clone(),
                        None => String::new(),
                    };
                    props.insert(key.clone(), v);
                },
                IniItem::Other => {},
            }
            i = i + 1;
        }
        assert(its.subrange(0, i as int) =~= its);
        assert(load_state(od0, its).od == Some(self@));
        match &current {
            Some(name) => {
                assert(load_state(od0, its).section == Some(name@));
                assert(spec_load(od0, its) == spec_process_section(self@, name@, props@));
                self.process_section(name.as_str(), &props)
            },
            None => {
                assert(spec_load(od0, its) == Some(self@));
                Ok(())
            },
        }
    }

    /// Reads a data sheet document into the dictionary.
    pub fn load_from_content(&mut self, content: &str) -> (r: Result<(), ErrorCode>)
        ensures
            match spec_load(old(self)@, ini_items_of(content@)) {
                Some(od) => r is Ok && final(self)@ == od,
                None => r matches Err(ErrorCode::ProcesedSectionFailed { .. }),
            },
    {
        let items = parse_ini(content);
        self.load_from_items(&items)
    }

    /// The dictionary of node `node_id` that a data sheet document describes.
    pub fn new(node_id: u8, eds_content: &str) -> (r: Result<Self, ErrorCode>)
        ensures
            match spec_load(DirectoryView { node_id, objects: Seq::empty() }, ini_items_of(eds_content@)) {
                Some(od) => r matches Ok(d) && d@ == od,
                None => r matches Err(ErrorCode::ProcesedSectionFailed { .. }),
            },
    {
        let mut od = ObjectDirectory::empty(node_id);
        assert(od@.objects =~= Seq::<ObjectView>::empty());
        match od.load_from_content(eds_content) {
            Ok(()) => Ok(od),
            Err(e) => Err(e),
        }
    }
}

impl ObjectDirectory {
    /// Whether a variable stands at `(index, sub_index)`, whatever its
    /// access. Arrays make up elements on access.
    pub fn has_variable(&mut self, index: u16, sub_index: u8) -> (r: bool)
        ensures
            final(self)@ == od_after_access(old(self)@, index, sub_index),
            r == spec_variable(old(self)@, index, sub_index) is Ok,
    {
        self.locate(index, sub_index).is_ok()
    }
}

impl ObjectDirectory {
    /// The variable at `(index, sub_index)`, for update, whatever its
    /// access. Arrays make up elements on access.
    pub fn get_mut_variable(&mut self, index: u16, sub_index: u8) -> (r: Result<&mut Variable, ErrorCode>)
        ensures
            r is Ok <==> spec_variable(old(self)@, index, sub_index) is Ok,
            r matches Ok(v) ==> (*v)@ == spec_variable(old(self)@, index, sub_index)->Ok_0,
            r matches Err(e) ==> is_abort(e, spec_variable(old(self)@, index, sub_index)->Err_0),
    {
        let (i, m) = match self.locate(index, sub_index) {
            Ok(p) => p,
            Err(c) => return Err(make_abort_error(c, String::new())),
        };
        proof {
            lemma_object_views(self.index_to_object@);
        }
        let ghost o = self@.objects[i as int];
        match &mut self.index_to_object[i] {
            ObjectType::Variable(v) => Ok(v),
            ObjectType::Array(a) => {
                proof {
                    lemma_views_len(a.index_to_variable@);
                }
                let j = m.unwrap();
                Ok(&mut a.index_to_variable[j])
            },
            ObjectType::Record(rec) => {
                proof {
                    lemma_views_len(rec.index_to_variable@);
                }
                let j = m.unwrap();
                Ok(&mut rec.index_to_variable[j])
            },
        }
    }
}

impl ObjectDirectory {
    /// A copy of the variable at `(index, sub_index)`, whatever its access.
    /// Arrays make up elements on access.
    pub fn get_variable_unchecked(&mut self, index: u16, sub_index: u8) -> (r: Result<Variable, AbortCode>)
        ensures
            final(self)@ == od_after_access(old(self)@, index, sub_index),
            match spec_variable(old(self)@, index, sub_index) {
                Ok(v) => r matches Ok(x) && x@ == v,
                Err(c) => r == Err::<Variable, AbortCode>(c),
            },
    {
        let (i, m) = match self.locate(index, sub_index) {
            Ok(p) => p,
            Err(c) => return Err(c),
        };
        proof {
            lemma_object_views(self.index_to_object@);
        }
        Ok(self.index_to_object[i].member(m).copy())
    }
}

impl ObjectDirectory {
    /// The variable that an access to `(index, sub_index)` finds, without
    /// changing the dictionary: an absent array element reads as the copy
    /// that the access would make up.
    pub fn peek_variable(&self, index: u16, sub_index: u8) -> (r: Result<Variable, AbortCode>)
        ensures
            match spec_variable(self@, index, sub_index) {
                Ok(v) => r matches Ok(x) && x@ == v,
                Err(c) => r == Err::<Variable, AbortCode>(c),
            },
    {
        proof {
            lemma_object_views(self.index_to_object@);
            lemma_find_object(self@.objects, index);
        }
        let i = match self.find_object_exec(index) {
            Some(i) => i,
            None => return Err(AbortCode::ObjectDoesNotExistInObjectDictionary),
        };
        let ghost od2 = od_after_access(self@, index, sub_index);
        proof {
            lemma_find_object_same_indices(self@.objects, od2.objects, index);
        }
        match &self.index_to_object[i] {
            ObjectType::Variable(v) => {
                if sub_index == 0 {
                    Ok(v.copy())
                } else {
                    Err(AbortCode::SubIndexDoesNotExist)
                }
            },
            ObjectType::Array(a) => {
                let mut tmp = a.copy();
                tmp.materialise(sub_index);
                proof {
                    lemma_find_member(tmp@.members, sub_index);
                    lemma_views_len(tmp.index_to_variable@);
                }
                match find_member_exec(&tmp.index_to_variable, sub_index) {
                    Some(j) => Ok(tmp.index_to_variable[j].copy()),
                    None => Err(AbortCode::ObjectDoesNotExistInObjectDictionary),
                }
            },
            ObjectType::Record(rec) => {
                proof {
                    lemma_find_member(rec@.members, sub_index);
                    lemma_views_len(rec.index_to_variable@);
                }
                match find_member_exec(&rec.index_to_variable, sub_index) {
                    Some(j) => Ok(rec.index_to_variable[j].copy()),
                    None => Err(AbortCode::ObjectDoesNotExistInObjectDictionary),
                }
            },
        }
    }
}

} // verus!
