use crate::registry::{
    after_remove, connection_ids, ids_distinct, is_registered, label_of, lemma_remove_keeps_wf,
    other_client, registry_wf, ClientView, Registry,
};
use crate::text::{opt_text, texts, trim_text, trimmed};
use vstd::prelude::*;
use vstd::string::*;

verus! {

/// Holds of the connection ids other than `sender`.
pub open spec fn other_id(sender: Seq<char>) -> spec_fn(Seq<char>) -> bool {
    |x: Seq<char>| x != sender
}

/// The ids of a snapshot that a message of `sender` goes to, in snapshot order.
pub open spec fn recipients_of(ids: Seq<Seq<char>>, sender: Seq<char>) -> Seq<Seq<char>> {
    ids.filter(other_id(sender))
}

/// The line that carries `message` under `label`: `"{label}: {message}\n"`.
pub open spec fn chat_line(label: Seq<char>, message: Seq<char>) -> Seq<char> {
    label + ": "@ + message + "\n"@
}

/// The line that carries an already trimmed `message` of `sender`, or none
/// when the message is empty.
pub open spec fn line_for(v: Seq<ClientView>, sender: Seq<char>, message: Seq<char>) -> Option<
    Seq<char>,
> {
    if message.len() == 0 {
        None
    } else {
        Some(chat_line(label_of(v, sender), message))
    }
}

/// The (recipient, line) pairs of one broadcast round of an already trimmed
/// `message` of `sender`.
pub open spec fn round_for(v: Seq<ClientView>, sender: Seq<char>, message: Seq<char>) -> Seq<
    (Seq<char>, Seq<char>),
> {
    match line_for(v, sender, message) {
        None => Seq::empty(),
        Some(line) => recipients_of(connection_ids(v), sender).map_values(
            |id: Seq<char>| (id, line),
        ),
    }
}

/// The line that a raw message of `sender` becomes, or none when the message
/// is blank once trimmed.
pub open spec fn outgoing_line(v: Seq<ClientView>, sender: Seq<char>, raw: Seq<char>) -> Option<
    Seq<char>,
> {
    line_for(v, sender, trimmed(raw))
}

/// The (recipient, line) pairs of one broadcast round of a raw message.
pub open spec fn deliveries(v: Seq<ClientView>, sender: Seq<char>, raw: Seq<char>) -> Seq<
    (Seq<char>, Seq<char>),
> {
    round_for(v, sender, trimmed(raw))
}

/// One line to write to one recipient.
pub struct Delivery {
    pub recipient: String,
    pub text: String,
}

impl View for Delivery {
    type V = (Seq<char>, Seq<char>);

    open spec fn view(&self) -> (Seq<char>, Seq<char>) {
        (self.recipient@, self.text@)
    }
}

/// The view of each delivery of a list.
pub open spec fn delivery_views(ds: Seq<Delivery>) -> Seq<(Seq<char>, Seq<char>)> {
    ds.map_values(|d: Delivery| d@)
}

/// The recipient of each delivery of a round, in order.
pub open spec fn recipients_in(ds: Seq<(Seq<char>, Seq<char>)>) -> Seq<Seq<char>> {
    ds.map_values(|d: (Seq<char>, Seq<char>)| d.0)
}

proof fn lemma_filter_distinct(s: Seq<Seq<char>>, p: spec_fn(Seq<char>) -> bool)
    requires
        s.no_duplicates(),
    ensures
        s.filter(p).no_duplicates(),
    decreases s.len(),
{
    if s.len() > 0 {
        let d = s.drop_last();
        assert(d.push(s.last()) =~= s);
        assert(d.no_duplicates());
        lemma_filter_distinct(d, p);
        d.lemma_filter_push(s.last(), p);
        if d.filter(p).contains(s.last()) {
            d.lemma_filter_contains_rev(p, s.last());
        }
    }
}

proof fn lemma_round_recipients(v: Seq<ClientView>, sender: Seq<char>, line: Seq<char>)
    requires
        ids_distinct(v),
    ensures
        ({
            let ds = recipients_of(connection_ids(v), sender).map_values(
                |id: Seq<char>| (id, line),
            );
            &&& recipients_in(ds) == recipients_of(connection_ids(v), sender)
            &&& recipients_in(ds).no_duplicates()
            &&& forall|i: int| 0 <= i < ds.len() ==> (#[trigger] ds[i]).1 == line
            &&& forall|id: Seq<char>|
                #[trigger] recipients_in(ds).contains(id) <==> is_registered(v, id) && id != sender
        }),
{
    broadcast use vstd::seq_lib::group_filter_ensures;

    let ids = connection_ids(v);
    let rs = recipients_of(ids, sender);
    let ds = rs.map_values(|id: Seq<char>| (id, line));
    assert(recipients_in(ds) =~= rs);
    lemma_filter_distinct(ids, other_id(sender));
    assert forall|id: Seq<char>| #[trigger] rs.contains(id) <==> is_registered(v, id) && id != sender by {
        if rs.contains(id) {
            ids.lemma_filter_contains_rev(other_id(sender), id);
            let k = rs.index_of(id);
            assert(other_id(sender)(rs[k]));
            let i = ids.index_of(id);
            assert(v[i].id == id);
        }
        if is_registered(v, id) && id != sender {
            let i = choose|i: int| 0 <= i < v.len() && v[i].id == id;
            assert(ids[i] == id);
            ids.lemma_filter_contains(other_id(sender), i);
        }
    }
}

/// A message that is empty or only whitespace is delivered to nobody.
pub proof fn lemma_blank_message_not_delivered(
    v: Seq<ClientView>,
    sender: Seq<char>,
    raw: Seq<char>,
)
    requires
        trimmed(raw).len() == 0,
    ensures
        deliveries(v, sender, raw).len() == 0,
{
}

/// A message that is not blank reaches every registered client other than
/// the sender exactly once, never the sender, and always as
/// `"{label}: {trimmed message}\n"`, where the label is the sender's display
/// name.
pub proof fn lemma_broadcast_reaches_every_other(
    v: Seq<ClientView>,
    sender: Seq<char>,
    raw: Seq<char>,
)
    requires
        registry_wf(v),
        trimmed(raw).len() > 0,
    ensures
        ({
            let ds = deliveries(v, sender, raw);
            &&& forall|i: int|
                0 <= i < ds.len() ==> (#[trigger] ds[i]).1 == chat_line(
                    label_of(v, sender),
                    trimmed(raw),
                )
            &&& forall|id: Seq<char>|
                #[trigger] recipients_in(ds).contains(id) <==> is_registered(v, id) && id != sender
            &&& recipients_in(ds).no_duplicates()
            &&& forall|i: int|
                0 <= i < v.len() && v[i].id == sender ==> label_of(v, sender) == v[i].name
        }),
{
    lemma_round_recipients(v, sender, chat_line(label_of(v, sender), trimmed(raw)));
}

/// Once connection `gone` is torn down, no broadcast round, from any sender,
/// addresses it; the round is still produced for everybody else.
pub proof fn lemma_removed_client_not_delivered(
    v: Seq<ClientView>,
    gone: Seq<char>,
    sender: Seq<char>,
    raw: Seq<char>,
)
    requires
        registry_wf(v),
    ensures
        !is_registered(after_remove(v, gone), gone),
        !recipients_in(deliveries(after_remove(v, gone), sender, raw)).contains(gone),
{
    broadcast use vstd::seq_lib::group_filter_ensures;

    let w = after_remove(v, gone);
    lemma_remove_keeps_wf(v, gone);
    if is_registered(w, gone) {
        let i = choose|i: int| 0 <= i < w.len() && w[i].id == gone;
        assert(other_client(gone)(w[i]));
    }
    match outgoing_line(w, sender, raw) {
        Some(line) => lemma_round_recipients(w, sender, line),
        None => {},
    }
}

/// The ids of `snapshot` other than `sender`, in order.
pub fn recipients(snapshot: &Vec<String>, sender: &String) -> (r: Vec<String>)
    ensures
        texts(r@) == recipients_of(texts(snapshot@), sender@),
{
    let mut r: Vec<String> = Vec::new();
    let mut i: usize = 0;
    while i < snapshot.len()
        invariant
            i <= snapshot@.len(),
            texts(r@) == recipients_of(texts(snapshot@).take(i as int), sender@),
        decreases snapshot@.len() - i,
    {
        let ghost before = texts(snapshot@).take(i as int);
        proof {
            assert(texts(snapshot@).take(i + 1) =~= before.push(snapshot@[i as int]@));
            before.lemma_filter_push(snapshot@[i as int]@, other_id(sender@));
        }
        if snapshot[i] != *sender {
            r.push(snapshot[i].clone());
            assert(texts(r@) =~= recipients_of(texts(snapshot@).take(i + 1), sender@));
        }
        i = i + 1;
    }
    assert(texts(snapshot@).take(i as int) =~= texts(snapshot@));
    r
}

impl Registry {
    /// The line that carries an already trimmed `message` of `sender`,
    /// `"{label}: {message}\n"`, or `None` when the message is empty.
    pub fn labelled_line(&self, sender: &String, message: &str) -> (r: Option<String>)
        requires
            registry_wf(self@),
        ensures
            opt_text(r) == line_for(self@, sender@, message@),
    {
        if message.is_empty() {
            return None;
        }
        let label = self.sender_label(sender);
        let line = label.concat(": ").concat(message).concat("\n");
        Some(line)
    }

    /// The line that a raw message of `sender` becomes, `"{label}: {trimmed}\n"`,
    /// or `None` when the message is blank.
    pub fn outgoing_line(&self, sender: &String, raw: &str) -> (r: Option<String>)
        requires
            registry_wf(self@),
        ensures
            opt_text(r) == outgoing_line(self@, sender@, raw@),
    {
        self.labelled_line(sender, trim_text(raw))
    }

    /// One broadcast round of an already trimmed `message` of `sender`: the
    /// labelled line for every registered client but the sender, in
    /// registration order; nothing when the message is empty.
    pub fn broadcast_round(&self, sender: &String, message: &str) -> (r: Vec<Delivery>)
        requires
            registry_wf(self@),
        ensures
            delivery_views(r@) == round_for(self@, sender@, message@),
    {
        let mut r: Vec<Delivery> = Vec::new();
        match self.labelled_line(sender, message) {
            None => {
                assert(delivery_views(r@) =~= round_for(self@, sender@, message@));
            },
            Some(line) => {
                let to = recipients(&self.connection_ids(), sender);
                let ghost targets = texts(to@);
                let mut i: usize = 0;
                while i < to.len()
                    invariant
                        i <= to@.len(),
                        targets == texts(to@),
                        delivery_views(r@) == targets.take(i as int).map_values(
                            |id: Seq<char>| (id, line@),
                        ),
                    decreases to@.len() - i,
                {
                    let ghost prev = r@;
                    let d = Delivery { recipient: to[i].clone(), text: line.clone() };
                    r.push(d);
                    assert(delivery_views(r@) =~= delivery_views(prev).push((targets[i as int], line@)));
                    assert(targets.take(i + 1) =~= targets.take(i as int).push(targets[i as int]));
                    assert(delivery_views(r@) =~= targets.take(i + 1).map_values(
                        |id: Seq<char>| (id, line@),
                    ));
                    i = i + 1;
                }
                assert(targets.take(i as int) =~= targets);
                assert(delivery_views(r@) =~= round_for(self@, sender@, message@));
            },
        }
        r
    }

    /// One broadcast round for a raw message of `sender`: the trimmed message,
    /// labelled, for every registered client but the sender, in registration
    /// order; nothing when the message is blank.
    pub fn broadcast_message(&self, sender: &String, raw: &str) -> (r: Vec<Delivery>)
        requires
            registry_wf(self@),
        ensures
            delivery_views(r@) == deliveries(self@, sender@, raw@),
    {
        self.broadcast_round(sender, trim_text(raw))
    }
}

} // verus!
