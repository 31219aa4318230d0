//! The symbol environment: a stack of symbol tables, one for each open
//! scope.

use vstd::prelude::*;

verus! {

/// What a [`VariableItem`] records.
pub ghost struct VariableEntry {
    pub name: Seq<char>,
    pub owner: Seq<char>,
    pub kind: i32,
    pub level: i32,
    pub vtype: Seq<i32>,
}

/// What a [`ProcedureItem`] records.
pub ghost struct ProcedureEntry {
    pub name: Seq<char>,
    pub ptype: Seq<i32>,
    pub level: i32,
}

/// What a [`SymbolTable`] holds: the variables and the procedures of one
/// scope, each found by its name, and the scope's nesting level.
pub ghost struct Scope {
    pub variables: Map<Seq<char>, VariableEntry>,
    pub procedures: Map<Seq<char>, ProcedureEntry>,
    pub level: i32,
}

/// A declared variable: its name, the procedure that owns it, its kind
/// (0 for a local variable, 1 for a formal parameter) and the level of the
/// scope that declares it.
#[derive(Clone, Debug)]
pub struct VariableItem {
    /// The name of the variable.
    pub vname: String,
    /// The procedure that owns it.
    pub vproc: String,
    /// Its kind: 0 for a local variable, 1 for a formal parameter.
    pub vkind: i32,
    /// The level of the scope that declares it.
    pub vlev: i32,
    /// Its type, where one is recorded.
    pub vtype: Vec<i32>,
}

impl View for VariableItem {
    type V = VariableEntry;

    open spec fn view(&self) -> VariableEntry {
        VariableEntry {
            name: self.vname@,
            owner: self.vproc@,
            kind: self.vkind,
            level: self.vlev,
            vtype: self.vtype@,
        }
    }
}

impl VariableItem {
    /// A variable with no type recorded yet.
    pub fn new(vname: String, vproc: String, vkind: i32, vlev: i32) -> (v: Self)
        ensures
            v@ == (VariableEntry {
                name: vname@,
                owner: vproc@,
                kind: vkind,
                level: vlev,
                vtype: Seq::empty(),
            }),
    {
        VariableItem { vname, vproc, vkind, vlev, vtype: Vec::new() }
    }
}

/// A declared procedure: its name and the level of the scope that declares
/// it.
#[derive(Clone, Debug)]
pub struct ProcedureItem {
    /// The name of the procedure.
    pub pname: String,
    /// Its type, where one is recorded.
    pub ptype: Vec<i32>,
    /// The level of the scope that declares it.
    pub plev: i32,
}

impl View for ProcedureItem {
    type V = ProcedureEntry;

    open spec fn view(&self) -> ProcedureEntry {
        ProcedureEntry { name: self.pname@, ptype: self.ptype@, level: self.plev }
    }
}

impl ProcedureItem {
    /// A procedure with no type recorded yet.
    pub fn new(pname: String, plev: i32) -> (p: Self)
        ensures
            p@ == (ProcedureEntry { name: pname@, ptype: Seq::empty(), level: plev }),
    {
        ProcedureItem { pname, ptype: Vec::new(), plev }
    }
}

/// The variables that a list of declarations makes known, each under its
/// name. Of two declarations of one name the later one counts.
pub open spec fn variables_of(items: Seq<VariableItem>) -> Map<Seq<char>, VariableEntry>
    decreases items.len(),
{
    if items.len() == 0 {
        Map::empty()
    } else {
        variables_of(items.drop_last()).insert(items.last().vname@, items.last()@)
    }
}

/// The procedures that a list of declarations makes known, each under its
/// name. Of two declarations of one name the later one counts.
pub open spec fn procedures_of(items: Seq<ProcedureItem>) -> Map<Seq<char>, ProcedureEntry>
    decreases items.len(),
{
    if items.len() == 0 {
        Map::empty()
    } else {
        procedures_of(items.drop_last()).insert(items.last().pname@, items.last()@)
    }
}

/// A name is known exactly if some declaration in the list has it.
pub proof fn lemma_variables_of_dom(items: Seq<VariableItem>, name: Seq<char>)
    ensures
        variables_of(items).dom().contains(name) <==> exists|i: int|
            0 <= i < items.len() && #[trigger] items[i].vname@ == name,
    decreases items.len(),
{
    if items.len() > 0 {
        let front = items.drop_last();
        lemma_variables_of_dom(front, name);
        if exists|i: int| 0 <= i < front.len() && #[trigger] front[i].vname@ == name {
            let i = choose|i: int| 0 <= i < front.len() && #[trigger] front[i].vname@ == name;
            assert(items[i].vname@ == name);
        }
        if exists|i: int| 0 <= i < items.len() && #[trigger] items[i].vname@ == name {
            let i = choose|i: int| 0 <= i < items.len() && #[trigger] items[i].vname@ == name;
            if i < front.len() {
                assert(front[i].vname@ == name);
            }
        }
    }
}

/// A name is known exactly if some declaration in the list has it.
pub proof fn lemma_procedures_of_dom(items: Seq<ProcedureItem>, name: Seq<char>)
    ensures
        procedures_of(items).dom().contains(name) <==> exists|i: int|
            0 <= i < items.len() && #[trigger] items[i].pname@ == name,
    decreases items.len(),
{
    if items.len() > 0 {
        let front = items.drop_last();
        lemma_procedures_of_dom(front, name);
        if exists|i: int| 0 <= i < front.len() && #[trigger] front[i].pname@ == name {
            let i = choose|i: int| 0 <= i < front.len() && #[trigger] front[i].pname@ == name;
            assert(items[i].pname@ == name);
        }
        if exists|i: int| 0 <= i < items.len() && #[trigger] items[i].pname@ == name {
            let i = choose|i: int| 0 <= i < items.len() && #[trigger] items[i].pname@ == name;
            if i < front.len() {
                assert(front[i].pname@ == name);
            }
        }
    }
}

/// Taking a declaration of `name` out of the list changes nothing for the
/// other names.
pub proof fn lemma_variables_of_remove(items: Seq<VariableItem>, at: int, name: Seq<char>)
    requires
        0 <= at < items.len(),
        items[at].vname@ == name,
    ensures
        variables_of(items.remove(at)).remove(name) == variables_of(items).remove(name),
    decreases items.len(),
{
    let front = items.drop_last();
    if at == items.len() - 1 {
        assert(items.remove(at) =~= front);
        assert(variables_of(front).insert(name, items.last()@).remove(name) =~= variables_of(
            front,
        ).remove(name));
    } else {
        lemma_variables_of_remove(front, at, name);
        let rest = items.remove(at);
        assert(rest.drop_last() =~= front.remove(at));
        assert(rest.last() == items.last());
        let k = items.last().vname@;
        let v = items.last()@;
        assert(variables_of(front.remove(at)).insert(k, v).remove(name) =~= variables_of(
            front.remove(at),
        ).remove(name).insert(k, v).remove(name));
        assert(variables_of(front).insert(k, v).remove(name) =~= variables_of(front).remove(
            name,
        ).insert(k, v).remove(name));
    }
}

/// Taking a declaration of `name` out of the list changes nothing for the
/// other names.
pub proof fn lemma_procedures_of_remove(items: Seq<ProcedureItem>, at: int, name: Seq<char>)
    requires
        0 <= at < items.len(),
        items[at].pname@ == name,
    ensures
        procedures_of(items.remove(at)).remove(name) == procedures_of(items).remove(name),
    decreases items.len(),
{
    let front = items.drop_last();
    if at == items.len() - 1 {
        assert(items.remove(at) =~= front);
        assert(procedures_of(front).insert(name, items.last()@).remove(name) =~= procedures_of(
            front,
        ).remove(name));
    } else {
        lemma_procedures_of_remove(front, at, name);
        let rest = items.remove(at);
        assert(rest.drop_last() =~= front.remove(at));
        assert(rest.last() == items.last());
        let k = items.last().pname@;
        let v = items.last()@;
        assert(procedures_of(front.remove(at)).insert(k, v).remove(name) =~= procedures_of(
            front.remove(at),
        ).remove(name).insert(k, v).remove(name));
        assert(procedures_of(front).insert(k, v).remove(name) =~= procedures_of(front).remove(
            name,
        ).insert(k, v).remove(name));
    }
}

/// Whether no two variables of the list have one name.
pub open spec fn distinct_variables(items: Seq<VariableItem>) -> bool {
    forall|i: int, j: int|
        #![trigger items[i], items[j]]
        0 <= i < j < items.len() ==> items[i].vname@ != items[j].vname@
}

/// Whether no two procedures of the list have one name.
pub open spec fn distinct_procedures(items: Seq<ProcedureItem>) -> bool {
    forall|i: int, j: int|
        #![trigger items[i], items[j]]
        0 <= i < j < items.len() ==> items[i].pname@ != items[j].pname@
}

/// A list without repeated names has none after one of its variables is
/// taken out.
pub proof fn lemma_distinct_variables_remove(items: Seq<VariableItem>, at: int)
    requires
        0 <= at < items.len(),
        distinct_variables(items),
    ensures
        distinct_variables(items.remove(at)),
{
    let rest = items.remove(at);
    assert forall|i: int, j: int| 0 <= i < j < rest.len() implies rest[i].vname@
        != rest[j].vname@ by {
        let a = if i < at { i } else { i + 1 };
        let b = if j < at { j } else { j + 1 };
        assert(rest[i] == items[a] && rest[j] == items[b]);
    }
}

/// A list without repeated names has none after one of its procedures is
/// taken out.
pub proof fn lemma_distinct_procedures_remove(items: Seq<ProcedureItem>, at: int)
    requires
        0 <= at < items.len(),
        distinct_procedures(items),
    ensures
        distinct_procedures(items.remove(at)),
{
    let rest = items.remove(at);
    assert forall|i: int, j: int| 0 <= i < j < rest.len() implies rest[i].pname@
        != rest[j].pname@ by {
        let a = if i < at { i } else { i + 1 };
        let b = if j < at { j } else { j + 1 };
        assert(rest[i] == items[a] && rest[j] == items[b]);
    }
}

/// The symbol table of one scope. It holds each name once among its
/// variables and once among its procedures, as long as it is filled and
/// emptied by its own functions.
#[derive(Clone, Debug)]
pub struct SymbolTable {
    /// The variables declared, in the order of their declaration.
    pub variables: Vec<VariableItem>,
    /// The procedures declared, in the order of their declaration.
    pub procedures: Vec<ProcedureItem>,
    /// The nesting level of the scope.
    pub level: i32,
}

impl View for SymbolTable {
    type V = Scope;

    open spec fn view(&self) -> Scope {
        Scope {
            variables: variables_of(self.variables@),
            procedures: procedures_of(self.procedures@),
            level: self.level,
        }
    }
}

/// A scope in which nothing is declared.
pub open spec fn empty_scope(level: i32) -> Scope {
    Scope { variables: Map::empty(), procedures: Map::empty(), level }
}

/// Whether the scope declares `name`, as a variable or as a procedure.
pub open spec fn declares(scope: Scope, name: Seq<char>) -> bool {
    scope.variables.dom().contains(name) || scope.procedures.dom().contains(name)
}

/// Whether some scope of the stack declares `name`.
pub open spec fn resolves(scopes: Seq<Scope>, name: Seq<char>) -> bool {
    exists|i: int| 0 <= i < scopes.len() && declares(#[trigger] scopes[i], name)
}

/// The scope `scope` after it has declared the variable `entry`.
pub open spec fn scope_with_variable(scope: Scope, entry: VariableEntry) -> Scope {
    Scope { variables: scope.variables.insert(entry.name, entry), ..scope }
}

/// Shadowing. A scope that has just been opened declares nothing, so a
/// name of an enclosing scope can be declared in it again; the name
/// resolves before and after that declaration; and when the scope is closed
/// the enclosing scopes are as they were.
pub proof fn lemma_inner_scope_shadows(scopes: Seq<Scope>, entry: VariableEntry, level: i32)
    requires
        resolves(scopes, entry.name),
    ensures
        !declares(scopes.push(empty_scope(level)).last(), entry.name),
        resolves(scopes.push(empty_scope(level)), entry.name),
        declares(
            scopes.push(scope_with_variable(empty_scope(level), entry)).last(),
            entry.name,
        ),
        resolves(scopes.push(scope_with_variable(empty_scope(level), entry)), entry.name),
        scopes.push(scope_with_variable(empty_scope(level), entry)).drop_last() == scopes,
{
    let i = choose|i: int| 0 <= i < scopes.len() && declares(#[trigger] scopes[i], entry.name);
    let opened = scopes.push(empty_scope(level));
    assert(declares(opened[i], entry.name));
    let shadowed = scopes.push(scope_with_variable(empty_scope(level), entry));
    assert(declares(shadowed[scopes.len() as int], entry.name));
    assert(shadowed.drop_last() =~= scopes);
}

/// A name resolves exactly if the innermost scope declares it or the
/// scopes around that one resolve it.
pub proof fn lemma_resolves_inside_out(scopes: Seq<Scope>, name: Seq<char>)
    requires
        scopes.len() > 0,
    ensures
        resolves(scopes, name) <==> declares(scopes.last(), name) || resolves(
            scopes.drop_last(),
            name,
        ),
{
    let outer = scopes.drop_last();
    if resolves(scopes, name) {
        let i = choose|i: int| 0 <= i < scopes.len() && declares(#[trigger] scopes[i], name);
        if i < scopes.len() - 1 {
            assert(declares(outer[i], name));
        }
    }
    if resolves(outer, name) {
        let i = choose|i: int| 0 <= i < outer.len() && declares(#[trigger] outer[i], name);
        assert(declares(scopes[i], name));
    }
    if declares(scopes.last(), name) {
        assert(declares(scopes[scopes.len() - 1], name));
    }
}

impl SymbolTable {
    /// No name occurs twice among the variables, nor among the procedures.
    pub open spec fn wf(&self) -> bool {
        distinct_variables(self.variables@) && distinct_procedures(self.procedures@)
    }

    /// The table of a scope at nesting level `level`, with nothing declared.
    pub fn new(level: i32) -> (st: Self)
        ensures
            st@ == empty_scope(level),
            st.wf(),
    {
        SymbolTable { variables: Vec::new(), procedures: Vec::new(), level }
    }

    /// The nesting level of the scope.
    pub fn get_level(&self) -> (level: i32)
        ensures
            level == self@.level,
    {
        self.level
    }

    /// Whether the table holds a variable called `name`.
    pub fn has_variable(&self, name: &String) -> (found: bool)
        ensures
            found == self@.variables.dom().contains(name@),
    {
        proof {
            lemma_variables_of_dom(self.variables@, name@);
        }
        let mut i: usize = 0;
        while i < self.variables.len()
            invariant
                i <= self.variables.len(),
                forall|j: int| 0 <= j < i ==> #[trigger] self.variables[j].vname@ != name@,
                self@.variables.dom().contains(name@) <==> exists|i: int|
                    0 <= i < self.variables.len() && #[trigger] self.variables[i].vname@ == name@,
            decreases self.variables.len() - i,
        {
            if self.variables[i].vname == *name {
                return true;
            }
            i = i + 1;
        }
        false
    }

    /// Whether the table holds a procedure called `name`.
    pub fn has_procedure(&self, name: &String) -> (found: bool)
        ensures
            found == self@.procedures.dom().contains(name@),
    {
        proof {
            lemma_procedures_of_dom(self.procedures@, name@);
        }
        let mut i: usize = 0;
        while i < self.procedures.len()
            invariant
                i <= self.procedures.len(),
                forall|j: int| 0 <= j < i ==> #[trigger] self.procedures[j].pname@ != name@,
                self@.procedures.dom().contains(name@) <==> exists|i: int|
                    0 <= i < self.procedures.len() && #[trigger] self.procedures[i].pname@ == name@,
            decreases self.procedures.len() - i,
        {
            if self.procedures[i].pname == *name {
                return true;
            }
            i = i + 1;
        }
        false
    }

    /// Enters a variable under its name; an earlier variable of that name
    /// gives way to it.
    pub fn put_variable(&mut self, item: VariableItem)
        ensures
            final(self)@ == (Scope {
                variables: old(self)@.variables.insert(item.vname@, item@),
                ..old(self)@
            }),
            old(self).wf() ==> final(self).wf(),
    {
        self.drop_variable(&item.vname);
        let ghost before = self.variables@;
        self.variables.push(item);
        assert(self.variables@.drop_last() =~= before);
        assert(variables_of(before).insert(item.vname@, item@) =~= old(self)@.variables.insert(
            item.vname@,
            item@,
        ));
    }

    /// Enters a procedure under its name; an earlier procedure of that name
    /// gives way to it.
    pub fn put_procedure(&mut self, item: ProcedureItem)
        ensures
            final(self)@ == (Scope {
                procedures: old(self)@.procedures.insert(item.pname@, item@),
                ..old(self)@
            }),
            old(self).wf() ==> final(self).wf(),
    {
        self.drop_procedure(&item.pname);
        let ghost before = self.procedures@;
        self.procedures.push(item);
        assert(self.procedures@.drop_last() =~= before);
        assert(procedures_of(before).insert(item.pname@, item@) =~= old(self)@.procedures.insert(
            item.pname@,
            item@,
        ));
    }

    /// Takes the variable called `name` out of the table, if there is one.
    pub fn drop_variable(&mut self, name: &String)
        ensures
            final(self)@ == (Scope {
                variables: old(self)@.variables.remove(name@),
                ..old(self)@
            }),
            forall|j: int|
                0 <= j < final(self).variables.len() ==> #[trigger] final(self).variables[j].vname@
                    != name@,
            final(self).procedures == old(self).procedures,
            old(self).wf() ==> final(self).wf(),
    {
        let mut i: usize = 0;
        while i < self.variables.len()
            invariant
                i <= self.variables.len(),
                self.procedures == old(self).procedures,
                self.level == old(self).level,
                old(self).wf() ==> self.wf(),
                forall|j: int| 0 <= j < i ==> #[trigger] self.variables[j].vname@ != name@,
                variables_of(self.variables@).remove(name@) == old(self)@.variables.remove(name@),
            decreases self.variables.len() - i,
        {
            if self.variables[i].vname == *name {
                proof {
                    lemma_variables_of_remove(self.variables@, i as int, name@);
                    if old(self).wf() {
                        lemma_distinct_variables_remove(self.variables@, i as int);
                    }
                }
                self.variables.remove(i);
            } else {
                i = i + 1;
            }
        }
        proof {
            lemma_variables_of_dom(self.variables@, name@);
            assert(variables_of(self.variables@).remove(name@) =~= variables_of(self.variables@));
        }
    }

    /// Takes the procedure called `name` out of the table, if there is one.
    pub fn drop_procedure(&mut self, name: &String)
        ensures
            final(self)@ == (Scope {
                procedures: old(self)@.procedures.remove(name@),
                ..old(self)@
            }),
            forall|j: int|
                0 <= j < final(self).procedures.len() ==> #[trigger] final(self).procedures[j].pname@
                    != name@,
            final(self).variables == old(self).variables,
            old(self).wf() ==> final(self).wf(),
    {
        let mut i: usize = 0;
        while i < self.procedures.len()
            invariant
                i <= self.procedures.len(),
                self.variables == old(self).variables,
                self.level == old(self).level,
                old(self).wf() ==> self.wf(),
                forall|j: int| 0 <= j < i ==> #[trigger] self.procedures[j].pname@ != name@,
                procedures_of(self.procedures@).remove(name@) == old(self)@.procedures.remove(
                    name@,
                ),
            decreases self.procedures.len() - i,
        {
            if self.procedures[i].pname == *name {
                proof {
                    lemma_procedures_of_remove(self.procedures@, i as int, name@);
                    if old(self).wf() {
                        lemma_distinct_procedures_remove(self.procedures@, i as int);
                    }
                }
                self.procedures.remove(i);
            } else {
                i = i + 1;
            }
        }
        proof {
            lemma_procedures_of_dom(self.procedures@, name@);
            assert(procedures_of(self.procedures@).remove(name@) =~= procedures_of(
                self.procedures@,
            ));
        }
    }
}

/// The stack of the scopes that are open, the innermost last.
#[derive(Clone, Debug)]
pub struct Env {
    /// The tables of the open scopes, the outermost first.
    pub stack: Vec<SymbolTable>,
}

impl View for Env {
    type V = Seq<Scope>;

    open spec fn view(&self) -> Seq<Scope> {
        Seq::new(self.stack@.len(), |i: int| self.stack@[i]@)
    }
}

impl Env {
    /// Every table of the stack holds each name once.
    pub open spec fn wf(&self) -> bool {
        forall|i: int| 0 <= i < self.stack.len() ==> (#[trigger] self.stack[i]).wf()
    }

    /// An environment with no scope open.
    pub fn new() -> (e: Self)
        ensures
            e@ == Seq::<Scope>::empty(),
            e.wf(),
    {
        let e = Env { stack: Vec::new() };
        assert(e@ =~= Seq::<Scope>::empty());
        e
    }

    /// Opens a scope: an empty table goes on top of the stack, its level the
    /// number of scopes that were open.
    pub fn enter_scope(&mut self)
        ensures
            final(self)@ == old(self)@.push(empty_scope(old(self)@.len() as i32)),
            old(self).wf() ==> final(self).wf(),
    {
        let t = SymbolTable::new(self.stack.len() as i32);
        self.stack.push(t);
        assert(self@ =~= old(self)@.push(empty_scope(old(self)@.len() as i32)));
    }

    /// Closes the innermost scope: its table leaves the stack, and with it all
    /// that the scope declared.
    pub fn exit_scope(&mut self)
        requires
            old(self)@.len() > 0,
        ensures
            final(self)@ == old(self)@.drop_last(),
            old(self).wf() ==> final(self).wf(),
    {
        self.stack.pop();
        assert(self@ =~= old(self)@.drop_last());
    }

    /// Declares a variable in the innermost scope, in place of any variable
    /// that the scope had under that name.
    pub fn add_variable(&mut self, vname: String, vproc: String, vkind: i32)
        requires
            old(self)@.len() > 0,
        ensures
            final(self)@ == old(self)@.update(
                old(self)@.len() - 1,
                Scope {
                    variables: old(self)@.last().variables.insert(
                        vname@,
                        VariableEntry {
                            name: vname@,
                            owner: vproc@,
                            kind: vkind,
                            level: old(self)@.last().level,
                            vtype: Seq::empty(),
                        },
                    ),
                    ..old(self)@.last()
                },
            ),
            old(self).wf() ==> final(self).wf(),
    {
        let mut t = self.stack.pop().unwrap();
        let item = VariableItem::new(vname, vproc, vkind, t.get_level());
        t.put_variable(item);
        self.stack.push(t);
        assert(self@ =~= old(self)@.update(old(self)@.len() - 1, t@));
    }

    /// Takes a variable out of the innermost scope.
    pub fn delete_cariable(&mut self, vname: String)
        requires
            old(self)@.len() > 0,
        ensures
            final(self)@ == old(self)@.update(
                old(self)@.len() - 1,
                Scope {
                    variables: old(self)@.last().variables.remove(vname@),
                    ..old(self)@.last()
                },
            ),
            old(self).wf() ==> final(self).wf(),
    {
        let mut t = self.stack.pop().unwrap();
        t.drop_variable(&vname);
        self.stack.push(t);
        assert(self@ =~= old(self)@.update(old(self)@.len() - 1, t@));
    }

    /// Declares a procedure in the innermost scope, in place of any procedure
    /// that the scope had under that name.
    pub fn add_procedure(&mut self, pname: String)
        requires
            old(self)@.len() > 0,
        ensures
            final(self)@ == old(self)@.update(
                old(self)@.len() - 1,
                Scope {
                    procedures: old(self)@.last().procedures.insert(
                        pname@,
                        ProcedureEntry {
                            name: pname@,
                            ptype: Seq::empty(),
                            level: old(self)@.last().level,
                        },
                    ),
                    ..old(self)@.last()
                },
            ),
            old(self).wf() ==> final(self).wf(),
    {
        let mut t = self.stack.pop().unwrap();
        let item = ProcedureItem::new(pname, t.get_level());
        t.put_procedure(item);
        self.stack.push(t);
        assert(self@ =~= old(self)@.update(old(self)@.len() - 1, t@));
    }

    /// Takes a procedure out of the innermost scope.
    pub fn delete_procedure(&mut self, pname: String)
        requires
            old(self)@.len() > 0,
        ensures
            final(self)@ == old(self)@.update(
                old(self)@.len() - 1,
                Scope {
                    procedures: old(self)@.last().procedures.remove(pname@),
                    ..old(self)@.last()
                },
            ),
            old(self).wf() ==> final(self).wf(),
    {
        let mut t = self.stack.pop().unwrap();
        t.drop_procedure(&pname);
        self.stack.push(t);
        assert(self@ =~= old(self)@.update(old(self)@.len() - 1, t@));
    }

    /// Whether `name` is declared in the innermost scope or in one that
    /// encloses it.
    pub fn find_symbol(&self, name: String) -> (found: bool)
        ensures
            found == resolves(self@, name@),
    {
        let mut i: usize = self.stack.len();
        while i > 0
            invariant
                i <= self.stack.len(),
                forall|j: int| i <= j < self.stack.len() ==> !declares(#[trigger] self@[j], name@),
            decreases i,
        {
            i = i - 1;
            if self.stack[i].has_variable(&name) || self.stack[i].has_procedure(&name) {
                assert(declares(self@[i as int], name@));
                return true;
            }
        }
        false
    }

    /// Whether the innermost scope itself declares `name`.
    pub fn check_repeat(&self, name: String) -> (repeated: bool)
        requires
            self@.len() > 0,
        ensures
            repeated == declares(self@.last(), name@),
    {
        let t = &self.stack[self.stack.len() - 1];
        t.has_variable(&name) || t.has_procedure(&name)
    }
}

} // verus!
