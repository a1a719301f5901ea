use crate::text::{lemma_trimmed_is_trimmed, texts, trim_text, trimmed};
use vstd::prelude::*;

verus! {

/// A registered connection and the display name it chose.
pub struct Client {
    pub connection_id: String,
    pub display_name: String,
}

/// What contracts see of a registered client.
pub struct ClientView {
    pub id: Seq<char>,
    pub name: Seq<char>,
}

impl View for Client {
    type V = ClientView;

    open spec fn view(&self) -> ClientView {
        ClientView { id: self.connection_id@, name: self.display_name@ }
    }
}

/// Why a registration was refused.
#[derive(Debug, Clone, Copy, PartialEq, Eq, Structural)]
pub enum RegisterError {
    /// The requested name is empty once trimmed.
    EmptyName,
    /// Another registered client already holds the name.
    NameTaken,
    /// The connection already holds a name.
    AlreadyRegistered,
}

/// No two clients share a connection id.
pub open spec fn ids_distinct(v: Seq<ClientView>) -> bool {
    forall|i: int, j: int| 0 <= i < v.len() && 0 <= j < v.len() && i != j ==> v[i].id != v[j].id
}

/// No two clients share a display name.
pub open spec fn names_distinct(v: Seq<ClientView>) -> bool {
    forall|i: int, j: int|
        0 <= i < v.len() && 0 <= j < v.len() && i != j ==> v[i].name != v[j].name
}

/// The registry invariant: connection ids and display names are unique.
pub open spec fn registry_wf(v: Seq<ClientView>) -> bool {
    ids_distinct(v) && names_distinct(v)
}

/// Whether connection `id` is registered.
pub open spec fn is_registered(v: Seq<ClientView>, id: Seq<char>) -> bool {
    exists|i: int| 0 <= i < v.len() && v[i].id == id
}

/// Whether some registered client holds display name `name`.
pub open spec fn name_in_use(v: Seq<ClientView>, name: Seq<char>) -> bool {
    exists|i: int| 0 <= i < v.len() && v[i].name == name
}

/// The label shown for messages of connection `id`: its display name when it
/// is registered, else the connection id itself.
pub open spec fn label_of(v: Seq<ClientView>, id: Seq<char>) -> Seq<char> {
    if is_registered(v, id) {
        v[choose|i: int| 0 <= i < v.len() && v[i].id == id].name
    } else {
        id
    }
}

/// The outcome of connection `id` claiming display name `name`: success, or
/// why it is refused (checked in this order).
pub open spec fn claim_result(v: Seq<ClientView>, id: Seq<char>, name: Seq<char>) -> Result<
    (),
    RegisterError,
> {
    if name.len() == 0 {
        Err(RegisterError::EmptyName)
    } else if name_in_use(v, name) {
        Err(RegisterError::NameTaken)
    } else if is_registered(v, id) {
        Err(RegisterError::AlreadyRegistered)
    } else {
        Ok(())
    }
}

/// The registry after a claim: one entry appended on success.
pub open spec fn after_claim(v: Seq<ClientView>, id: Seq<char>, name: Seq<char>) -> Seq<
    ClientView,
> {
    match claim_result(v, id, name) {
        Ok(_) => v.push(ClientView { id, name }),
        Err(_) => v,
    }
}

/// The outcome of registering connection `id` with a requested line: the
/// trimmed line is claimed, and on success is the name now held.
pub open spec fn register_result(v: Seq<ClientView>, id: Seq<char>, line: Seq<char>) -> Result<
    Seq<char>,
    RegisterError,
> {
    match claim_result(v, id, trimmed(line)) {
        Ok(_) => Ok(trimmed(line)),
        Err(e) => Err(e),
    }
}

/// The registry after a registration attempt with a requested line.
pub open spec fn after_register(v: Seq<ClientView>, id: Seq<char>, line: Seq<char>) -> Seq<
    ClientView,
> {
    after_claim(v, id, trimmed(line))
}

/// The registry after connection `id` is torn down.
pub open spec fn after_remove(v: Seq<ClientView>, id: Seq<char>) -> Seq<ClientView> {
    v.filter(other_client(id))
}

/// Holds of the clients other than connection `id`.
pub open spec fn other_client(id: Seq<char>) -> spec_fn(ClientView) -> bool {
    |c: ClientView| c.id != id
}

proof fn lemma_filter_keeps_others(s: Seq<ClientView>, id: Seq<char>)
    requires
        forall|k: int| 0 <= k < s.len() ==> s[k].id != id,
    ensures
        after_remove(s, id) == s,
    decreases s.len(),
{
    reveal(Seq::filter);
    if s.len() > 0 {
        lemma_filter_keeps_others(s.drop_last(), id);
        assert(s.drop_last().push(s.last()) =~= s);
    }
}

proof fn lemma_filter_drops_one(s: Seq<ClientView>, id: Seq<char>, i: int)
    requires
        0 <= i < s.len(),
        s[i].id == id,
        ids_distinct(s),
    ensures
        after_remove(s, id) == s.remove(i),
    decreases s.len(),
{
    reveal(Seq::filter);
    let d = s.drop_last();
    if i == s.len() - 1 {
        lemma_filter_keeps_others(d, id);
        assert(s.remove(i) =~= d);
    } else {
        lemma_filter_drops_one(d, id, i);
        assert(s.remove(i) =~= d.remove(i).push(s.last()));
    }
}

/// The connection ids of a registry, in registration order.
pub open spec fn connection_ids(v: Seq<ClientView>) -> Seq<Seq<char>> {
    v.map_values(|c: ClientView| c.id)
}

/// A registry that satisfies the invariant still does after a teardown.
pub proof fn lemma_remove_keeps_wf(v: Seq<ClientView>, id: Seq<char>)
    requires
        registry_wf(v),
    ensures
        registry_wf(after_remove(v, id)),
{
    if is_registered(v, id) {
        let i = choose|i: int| 0 <= i < v.len() && v[i].id == id;
        lemma_filter_drops_one(v, id, i);
        let w = v.remove(i);
        assert forall|a: int, b: int| 0 <= a < w.len() && 0 <= b < w.len() && a != b implies w[a].id
            != w[b].id && w[a].name != w[b].name by {
            let a0 = if a < i { a } else { a + 1 };
            let b0 = if b < i { b } else { b + 1 };
            assert(w[a] == v[a0] && w[b] == v[b0]);
        }
    } else {
        lemma_filter_keeps_others(v, id);
    }
}

/// A registry that satisfies the invariant still does after a registration
/// attempt, whatever its outcome.
pub proof fn lemma_register_keeps_wf(v: Seq<ClientView>, id: Seq<char>, line: Seq<char>)
    requires
        registry_wf(v),
    ensures
        registry_wf(after_register(v, id, line)),
{
}

/// One change to the registry: a registration attempt or a teardown.
pub enum RegistryOp {
    Register { id: Seq<char>, line: Seq<char> },
    Remove { id: Seq<char> },
}

/// The registry after one change.
pub open spec fn apply_op(v: Seq<ClientView>, op: RegistryOp) -> Seq<ClientView> {
    match op {
        RegistryOp::Register { id, line } => after_register(v, id, line),
        RegistryOp::Remove { id } => after_remove(v, id),
    }
}

/// The registry after a sequence of changes, applied in order.
pub open spec fn apply_ops(v: Seq<ClientView>, ops: Seq<RegistryOp>) -> Seq<ClientView>
    decreases ops.len(),
{
    if ops.len() == 0 {
        v
    } else {
        apply_op(apply_ops(v, ops.drop_last()), ops.last())
    }
}

/// Every registered display name is non-empty once trimmed.
pub open spec fn names_nonblank(v: Seq<ClientView>) -> bool {
    forall|i: int| 0 <= i < v.len() ==> trimmed(#[trigger] v[i].name).len() > 0
}

proof fn lemma_ops_keep_names_nonblank(v: Seq<ClientView>, op: RegistryOp)
    requires
        names_nonblank(v),
    ensures
        names_nonblank(apply_op(v, op)),
{
    broadcast use vstd::seq_lib::group_filter_ensures;

    match op {
        RegistryOp::Register { id, line } => {
            lemma_trimmed_is_trimmed(line);
            let w = after_register(v, id, line);
            assert forall|i: int| 0 <= i < w.len() implies trimmed(#[trigger] w[i].name).len() > 0 by {
                if i < v.len() {
                    assert(w[i] == v[i]);
                }
            }
        },
        RegistryOp::Remove { id } => {
            let w = after_remove(v, id);
            assert forall|i: int| 0 <= i < w.len() implies trimmed(#[trigger] w[i].name).len() > 0 by {
                assert(w.contains(w[i]));
                v.lemma_filter_contains_rev(other_client(id), w[i]);
                let j = v.index_of(w[i]);
                assert(v[j] == w[i]);
            }
        },
    }
}

/// Whatever registrations and teardowns happen, in whatever order, starting
/// from an empty registry no two registered clients ever hold the same
/// display name, nor the same connection id, and no registered client holds
/// a name that is blank once trimmed.
pub proof fn lemma_names_unique_in_every_history(ops: Seq<RegistryOp>)
    ensures
        registry_wf(apply_ops(Seq::empty(), ops)),
        names_nonblank(apply_ops(Seq::empty(), ops)),
    decreases ops.len(),
{
    if ops.len() > 0 {
        lemma_names_unique_in_every_history(ops.drop_last());
        let v = apply_ops(Seq::empty(), ops.drop_last());
        lemma_ops_keep_names_nonblank(v, ops.last());
        match ops.last() {
            RegistryOp::Register { id, line } => lemma_register_keeps_wf(v, id, line),
            RegistryOp::Remove { id } => lemma_remove_keeps_wf(v, id),
        }
    }
}

/// Two connections that ask for the same name, one after the other under the
/// registry's lock, never both succeed: once the first holds the name the
/// second is told it is taken. When the name is free and neither connection
/// is registered yet, the first succeeds; the second then succeeds with any
/// other free, non-empty name.
pub proof fn lemma_same_name_race(
    v: Seq<ClientView>,
    a: Seq<char>,
    b: Seq<char>,
    line_a: Seq<char>,
    line_b: Seq<char>,
    retry: Seq<char>,
)
    requires
        registry_wf(v),
        a != b,
        trimmed(line_a) == trimmed(line_b),
    ensures
        ({
            let first = register_result(v, a, line_a);
            let v1 = after_register(v, a, line_a);
            let second = register_result(v1, b, line_b);
            &&& !(first is Ok && second is Ok)
            &&& first is Ok ==> second == Err::<Seq<char>, RegisterError>(RegisterError::NameTaken)
            &&& (trimmed(line_a).len() > 0 && !name_in_use(v, trimmed(line_a)) && !is_registered(v, a))
                ==> first is Ok
            &&& (trimmed(retry).len() > 0 && !name_in_use(v1, trimmed(retry)) && !is_registered(v, b))
                ==> register_result(v1, b, retry) == Ok::<Seq<char>, RegisterError>(trimmed(retry))
        }),
{
    let v1 = after_register(v, a, line_a);
    if register_result(v, a, line_a) is Ok {
        assert(v1[v.len() as int].name == trimmed(line_b));
    }
    if !is_registered(v, b) {
        assert forall|i: int| 0 <= i < v1.len() implies v1[i].id != b by {
            if i < v.len() {
                assert(v1[i] == v[i]);
            }
        }
    }
}

/// A name that is empty or only whitespace is always refused, and the
/// registry is left as it was.
pub proof fn lemma_blank_name_refused(v: Seq<ClientView>, id: Seq<char>, line: Seq<char>)
    requires
        trimmed(line).len() == 0,
    ensures
        register_result(v, id, line) == Err::<Seq<char>, RegisterError>(RegisterError::EmptyName),
        after_register(v, id, line) == v,
{
}

/// The shared table of registered clients, in registration order.
pub struct Registry {
    clients: Vec<Client>,
}

impl View for Registry {
    type V = Seq<ClientView>;

    closed spec fn view(&self) -> Seq<ClientView> {
        self.clients@.map_values(|c: Client| c@)
    }
}

impl Registry {
    /// An empty registry.
    pub fn new() -> (r: Self)
        ensures
            r@ == Seq::<ClientView>::empty(),
            registry_wf(r@),
    {
        let r = Registry { clients: Vec::new() };
        assert(r@ =~= Seq::<ClientView>::empty());
        r
    }

    /// The number of registered clients.
    pub fn len(&self) -> (r: usize)
        ensures
            r == self@.len(),
    {
        self.clients.len()
    }

    fn find(&self, id: &String) -> (r: Option<usize>)
        ensures
            match r {
                Some(i) => i < self@.len() && self@[i as int].id == id@,
                None => !is_registered(self@, id@),
            },
    {
        let mut i: usize = 0;
        while i < self.clients.len()
            invariant
                i <= self.clients@.len(),
                forall|k: int| 0 <= k < i ==> self@[k].id != id@,
            decreases self.clients@.len() - i,
        {
            if self.clients[i].connection_id == *id {
                return Some(i);
            }
            i = i + 1;
        }
        None
    }

    /// Whether connection `id` is registered.
    pub fn is_registered(&self, id: &String) -> (r: bool)
        ensures
            r == is_registered(self@, id@),
    {
        self.find(id).is_some()
    }

    /// Whether some registered client holds display name `name`.
    pub fn name_taken(&self, name: &String) -> (r: bool)
        ensures
            r == name_in_use(self@, name@),
    {
        let mut i: usize = 0;
        while i < self.clients.len()
            invariant
                i <= self.clients@.len(),
                forall|k: int| 0 <= k < i ==> self@[k].name != name@,
            decreases self.clients@.len() - i,
        {
            if self.clients[i].display_name == *name {
                assert(self@[i as int].name == name@);
                return true;
            }
            i = i + 1;
        }
        false
    }

    /// Gives connection `connection_id` display name `name`, checking and
    /// inserting in one step.
    pub fn claim_name(&mut self, connection_id: &String, name: String) -> (r: Result<
        (),
        RegisterError,
    >)
        requires
            registry_wf(old(self)@),
        ensures
            registry_wf(final(self)@),
            final(self)@ == after_claim(old(self)@, connection_id@, name@),
            r == claim_result(old(self)@, connection_id@, name@),
    {
        if name.as_str().is_empty() {
            return Err(RegisterError::EmptyName);
        }
        if self.name_taken(&name) {
            return Err(RegisterError::NameTaken);
        }
        if self.is_registered(connection_id) {
            return Err(RegisterError::AlreadyRegistered);
        }
        let ghost prev = self@;
        let ghost n = name@;
        self.clients.push(Client { connection_id: connection_id.clone(), display_name: name });
        assert(self@ =~= prev.push(ClientView { id: connection_id@, name: n }));
        Ok(())
    }

    /// Registers connection `connection_id` under the trimmed `line`; on
    /// success returns the name now held.
    pub fn register(&mut self, connection_id: &String, line: &str) -> (r: Result<
        String,
        RegisterError,
    >)
        requires
            registry_wf(old(self)@),
        ensures
            registry_wf(final(self)@),
            final(self)@ == after_register(old(self)@, connection_id@, line@),
            match r {
                Ok(name) => register_result(old(self)@, connection_id@, line@) == Ok::<
                    Seq<char>,
                    RegisterError,
                >(name@),
                Err(e) => register_result(old(self)@, connection_id@, line@) == Err::<
                    Seq<char>,
                    RegisterError,
                >(e),
            },
    {
        let name = trim_text(line).to_owned();
        match self.claim_name(connection_id, name.clone()) {
            Ok(()) => Ok(name),
            Err(e) => Err(e),
        }
    }

    /// Removes connection `connection_id`, if registered; returns whether it was.
    pub fn remove(&mut self, connection_id: &String) -> (r: bool)
        requires
            registry_wf(old(self)@),
        ensures
            registry_wf(final(self)@),
            final(self)@ == after_remove(old(self)@, connection_id@),
            r == is_registered(old(self)@, connection_id@),
    {
        match self.find(connection_id) {
            Some(i) => {
                let ghost prev = self@;
                self.clients.remove(i);
                assert(self@ =~= prev.remove(i as int));
                proof {
                    lemma_filter_drops_one(prev, connection_id@, i as int);
                }
                true
            },
            None => {
                proof {
                    lemma_filter_keeps_others(self@, connection_id@);
                }
                false
            },
        }
    }

    /// The label for messages of connection `id`: its display name when it is
    /// registered, else `id` itself.
    pub fn sender_label(&self, id: &String) -> (r: String)
        requires
            registry_wf(self@),
        ensures
            r@ == label_of(self@, id@),
    {
        match self.find(id) {
            Some(i) => {
                let ghost j = choose|j: int| 0 <= j < self@.len() && self@[j].id == id@;
                assert(j == i as int);
                self.clients[i].display_name.clone()
            },
            None => id.clone(),
        }
    }

    /// A snapshot of the registered connection ids, in registration order.
    pub fn connection_ids(&self) -> (r: Vec<String>)
        ensures
            texts(r@) == connection_ids(self@),
    {
        let mut r: Vec<String> = Vec::new();
        let mut i: usize = 0;
        while i < self.clients.len()
            invariant
                i <= self.clients@.len(),
                texts(r@) == connection_ids(self@.take(i as int)),
            decreases self.clients@.len() - i,
        {
            let ghost prev = r@;
            let id = self.clients[i].connection_id.clone();
            r.push(id);
            assert(self@[i as int].id == id@);
            assert(self@.take(i + 1) =~= self@.take(i as int).push(self@[i as int]));
            assert(texts(r@) =~= texts(prev).push(id@));
            assert(texts(r@) =~= connection_ids(self@.take(i + 1)));
            i = i + 1;
        }
        assert(self@.take(i as int) =~= self@);
        r
    }
}

} // verus!
