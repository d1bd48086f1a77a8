use vstd::prelude::*;
use vstd::slice::{slice_subrange, slice_to_vec};
use vstd::utf8::*;

use crate::keyed::{
    distinct_keys, dropped, law_drop_keeps_keys_distinct, law_drop_then_lookup,
    law_store_keeps_keys_distinct, law_store_then_lookup, lemma_slot, listed, lookup, slot, stored,
};
use crate::peer::PeerAddr;
use crate::protocol::{join_prefix, join_request, name_separator, new_connection_sequence};
use crate::text::{has_prefix, starts_with, string_from_utf8};

verus! {

/// A registered client: the address it writes from and the name it announced.
struct Client {
    addr: PeerAddr,
    name: String,
}

impl View for Client {
    type V = (PeerAddr, Seq<char>);

    closed spec fn view(&self) -> (PeerAddr, Seq<char>) {
        (self.addr, self.name@)
    }
}

/// Bytes to be sent to one peer.
pub struct Outbound {
    pub to: PeerAddr,
    pub payload: Vec<u8>,
}

impl View for Outbound {
    type V = (PeerAddr, Seq<u8>);

    open spec fn view(&self) -> (PeerAddr, Seq<u8>) {
        (self.to, self.payload@)
    }
}

/// What the dispatcher did with one incoming message.
pub enum Dispatch {
    /// The sender was registered and sent an empty message: it was removed.
    Left { name: String },
    /// The sender announced itself and was registered under `name`.
    Joined { name: String },
    /// An announcement that was not acted on.
    Ignored,
    /// A chat message, with the bytes to send to each recipient, in order.
    Forwarded { deliveries: Vec<Outbound> },
}

/// The mathematical value of a [`Dispatch`].
pub enum DispatchView {
    Left(Seq<char>),
    Joined(Seq<char>),
    Ignored,
    Forwarded(Seq<(PeerAddr, Seq<u8>)>),
}

/// The views of a sequence of outbound messages.
pub open spec fn outbound_views(v: Seq<Outbound>) -> Seq<(PeerAddr, Seq<u8>)> {
    v.map_values(|o: Outbound| o@)
}

impl View for Dispatch {
    type V = DispatchView;

    open spec fn view(&self) -> DispatchView {
        match self {
            Dispatch::Left { name } => DispatchView::Left(name@),
            Dispatch::Joined { name } => DispatchView::Joined(name@),
            Dispatch::Ignored => DispatchView::Ignored,
            Dispatch::Forwarded { deliveries } => DispatchView::Forwarded(
                outbound_views(deliveries@),
            ),
        }
    }
}

/// A message that announces a client: it starts with the announcement prefix.
pub open spec fn is_join(msg: Seq<u8>) -> bool {
    has_prefix(msg, join_prefix())
}

/// What follows the announcement prefix: the bytes of the announced name.
pub open spec fn announced_bytes(msg: Seq<u8>) -> Seq<u8> {
    msg.subrange(join_prefix().len() as int, msg.len() as int)
}

/// The line a recipient called `name` is sent: its own name, " : ", then `body`.
pub open spec fn chat_line(name: Seq<char>, body: Seq<u8>) -> Seq<u8> {
    encode_utf8(name) + name_separator() + body
}

/// What a chat message yields, recipient by recipient in book order: every
/// client but the sender is sent a line; the first such line carries `body`,
/// the ones after it carry no text (the body has been moved into the first).
pub open spec fn deliveries(
    book: Seq<(PeerAddr, Seq<char>)>,
    sender: PeerAddr,
    body: Seq<u8>,
) -> Seq<(PeerAddr, Seq<u8>)>
    decreases book.len(),
{
    if book.len() == 0 {
        Seq::empty()
    } else if book[0].0 == sender {
        deliveries(book.drop_first(), sender, body)
    } else {
        seq![(book[0].0, chat_line(book[0].1, body))] + deliveries(
            book.drop_first(),
            sender,
            Seq::empty(),
        )
    }
}

/// One step of the dispatcher: the book after a message `msg` from `sender`,
/// and what is done with it.
/// - An empty message from a registered client removes it.
/// - An announcement from an unregistered address whose name bytes are
///   well-formed UTF-8 registers it under the decoded name; any other
///   announcement is ignored.
/// - Any other message is forwarded to all other registered clients.
pub open spec fn step(book: Seq<(PeerAddr, Seq<char>)>, sender: PeerAddr, msg: Seq<u8>) -> (
    Seq<(PeerAddr, Seq<char>)>,
    DispatchView,
) {
    if msg.len() == 0 && listed(book, sender) {
        (dropped(book, sender), DispatchView::Left(lookup(book, sender).unwrap()))
    } else if is_join(msg) {
        if !listed(book, sender) && valid_utf8(announced_bytes(msg)) {
            let name = decode_utf8(announced_bytes(msg));
            (stored(book, sender, name), DispatchView::Joined(name))
        } else {
            (book, DispatchView::Ignored)
        }
    } else {
        (book, DispatchView::Forwarded(deliveries(book, sender, msg)))
    }
}

/// Every delivery of a chat message goes to a registered client other than the
/// sender, no client is sent two lines, every registered client other than the
/// sender is sent one, the lines follow the order of the book, and the line
/// sent is the whole UTF-8 encoding of the recipient's own name, the bytes
/// " : " (0x20 0x3a 0x20), and the body for the first recipient, nothing
/// after " : " for the others.
pub open spec fn deliveries_correct(
    book: Seq<(PeerAddr, Seq<char>)>,
    sender: PeerAddr,
    body: Seq<u8>,
    d: Seq<(PeerAddr, Seq<u8>)>,
) -> bool {
    &&& forall|k: int| 0 <= k < d.len() ==> (#[trigger] d[k]).0 != sender && listed(book, d[k].0)
    &&& forall|k1: int, k2: int|
        0 <= k1 < d.len() && 0 <= k2 < d.len() && k1 != k2 ==> (#[trigger] d[k1]).0 != (#[trigger] d[k2]).0
    &&& forall|a: PeerAddr|
        #[trigger] listed(book, a) && a != sender ==> exists|k: int| 0 <= k < d.len() && (#[trigger] d[k]).0 == a
    &&& forall|k1: int, k2: int|
        0 <= k1 < k2 < d.len() ==> slot(book, (#[trigger] d[k1]).0) < slot(book, (#[trigger] d[k2]).0)
    &&& forall|k: int|
        0 <= k < d.len() ==> (#[trigger] d[k]).1 == encode_utf8(lookup(book, d[k].0).unwrap())
            + seq![0x20u8, 0x3au8, 0x20u8] + (if k == 0 { body } else { Seq::<u8>::empty() })
}

proof fn lemma_deliveries(book: Seq<(PeerAddr, Seq<char>)>, sender: PeerAddr, body: Seq<u8>)
    requires
        distinct_keys(book),
    ensures
        deliveries_correct(book, sender, body, deliveries(book, sender, body)),
    decreases book.len(),
{
    let d = deliveries(book, sender, body);
    if book.len() == 0 {
        return;
    }
    let rest = book.drop_first();
    assert(distinct_keys(rest)) by {
        assert forall|i: int, j: int|
            0 <= i < rest.len() && 0 <= j < rest.len() && i != j implies #[trigger] rest[i].0
            != #[trigger] rest[j].0 by {
            assert(rest[i] == book[i + 1]);
            assert(rest[j] == book[j + 1]);
        }
    }
    // an address listed in `rest` is listed in `book`, one place later, with the same name
    assert forall|a: PeerAddr| #[trigger] listed(rest, a) implies listed(book, a)
        && slot(book, a) == slot(rest, a) + 1 && lookup(book, a) == lookup(rest, a) by {
        let i = slot(rest, a);
        lemma_slot(rest, i);
        assert(rest[i] == book[i + 1]);
        lemma_slot(book, i + 1);
    }
    lemma_slot(book, 0);
    if book[0].0 == sender {
        lemma_deliveries(rest, sender, body);
        assert(d == deliveries(rest, sender, body));
        assert forall|a: PeerAddr|
            #[trigger] listed(book, a) && a != sender implies exists|k: int| 0 <= k < d.len() && (#[trigger] d[k]).0 == a by {
            let i = slot(book, a);
            assert(i != 0);
            assert(rest[i - 1] == book[i]);
            assert(listed(rest, a));
        }
    } else {
        let tail = deliveries(rest, sender, Seq::empty());
        lemma_deliveries(rest, sender, Seq::empty());
        let first = (book[0].0, chat_line(book[0].1, body));
        assert(d == seq![first] + tail);
        assert forall|k: int| 0 <= k < d.len() implies (#[trigger] d[k]).0 != sender && listed(book, d[k].0)
            && d[k].1 == encode_utf8(lookup(book, d[k].0).unwrap()) + seq![0x20u8, 0x3au8, 0x20u8]
            + (if k == 0 { body } else { Seq::<u8>::empty() }) by {
            if k > 0 {
                assert(d[k] == tail[k - 1]);
                assert(listed(rest, tail[k - 1].0));
            }
        }
        assert forall|k1: int, k2: int|
            0 <= k1 < d.len() && 0 <= k2 < d.len() && k1 != k2 implies (#[trigger] d[k1]).0 != (#[trigger] d[k2]).0 by {
            if k1 > 0 && k2 > 0 {
                assert(d[k1] == tail[k1 - 1]);
                assert(d[k2] == tail[k2 - 1]);
            } else {
                let k = if k1 == 0 { k2 } else { k1 };
                assert(d[k] == tail[k - 1]);
                assert(listed(rest, tail[k - 1].0));
            }
        }
        assert forall|k1: int, k2: int|
            0 <= k1 < k2 < d.len() implies slot(book, (#[trigger] d[k1]).0) < slot(book, (#[trigger] d[k2]).0) by {
            assert(d[k2] == tail[k2 - 1]);
            assert(listed(rest, tail[k2 - 1].0));
            if k1 > 0 {
                assert(d[k1] == tail[k1 - 1]);
                assert(listed(rest, tail[k1 - 1].0));
            }
        }
        assert forall|a: PeerAddr|
            #[trigger] listed(book, a) && a != sender implies exists|k: int| 0 <= k < d.len() && (#[trigger] d[k]).0 == a by {
            let i = slot(book, a);
            if i == 0 {
                assert(d[0].0 == a);
            } else {
                assert(rest[i - 1] == book[i]);
                assert(listed(rest, a));
                let k = choose|k: int| 0 <= k < tail.len() && (#[trigger] tail[k]).0 == a;
                assert(d[k + 1] == tail[k]);
            }
        }
    }
}

/// Law: no message can make an address appear twice in the book.
pub proof fn law_step_keeps_addresses_distinct(
    book: Seq<(PeerAddr, Seq<char>)>,
    sender: PeerAddr,
    msg: Seq<u8>,
)
    requires
        distinct_keys(book),
    ensures
        distinct_keys(step(book, sender, msg).0),
{
    if msg.len() == 0 && listed(book, sender) {
        law_drop_keeps_keys_distinct(book, sender);
    } else if is_join(msg) && !listed(book, sender) && valid_utf8(announced_bytes(msg)) {
        law_store_keeps_keys_distinct(book, sender, decode_utf8(announced_bytes(msg)));
    }
}

/// Law: one message changes the book only in the entry of its sender. An
/// address other than the sender keeps its entry (or its absence); the sender
/// leaves exactly on an empty message while registered, and joins exactly on
/// an announcement with a well-formed name while unregistered, under the name
/// it announced; a registered sender keeps its name on any other message.
pub proof fn law_book_changes_only_by_join_or_leave(
    book: Seq<(PeerAddr, Seq<char>)>,
    sender: PeerAddr,
    msg: Seq<u8>,
    addr: PeerAddr,
)
    requires
        distinct_keys(book),
    ensures
        addr != sender ==> lookup(step(book, sender, msg).0, addr) == lookup(book, addr),
        listed(book, sender) && msg.len() == 0 ==> !listed(step(book, sender, msg).0, sender),
        listed(book, sender) && msg.len() != 0 ==> lookup(step(book, sender, msg).0, sender)
            == lookup(book, sender),
        !listed(book, sender) ==> (listed(step(book, sender, msg).0, sender) <==> (msg.len() >= 3
            && msg[0] == 0x02u8 && msg[1] == 0x05u8 && msg[2] == 0x83u8 && valid_utf8(
            msg.subrange(3, msg.len() as int),
        ))),
        !listed(book, sender) && listed(step(book, sender, msg).0, sender) ==> lookup(
            step(book, sender, msg).0,
            sender,
        ) == Some(decode_utf8(msg.subrange(3, msg.len() as int))),
{
    lemma_join_bytes(msg);
    if msg.len() == 0 && listed(book, sender) {
        law_drop_then_lookup(book, sender, addr);
    } else if is_join(msg) && !listed(book, sender) && valid_utf8(announced_bytes(msg)) {
        let name = decode_utf8(announced_bytes(msg));
        law_store_then_lookup(book, sender, name, addr);
    }
}

/// The book after handling each message of `msgs` (sender and bytes) in turn.
pub open spec fn run_book(book: Seq<(PeerAddr, Seq<char>)>, msgs: Seq<(PeerAddr, Seq<u8>)>) -> Seq<
    (PeerAddr, Seq<char>),
>
    decreases msgs.len(),
{
    if msgs.len() == 0 {
        book
    } else {
        run_book(step(book, msgs[0].0, msgs[0].1).0, msgs.drop_first())
    }
}

/// Law: over any sequence of messages the book keeps every address at most
/// once, and a registered client keeps its first name for as long as it
/// sends no empty message (the one way to leave).
pub proof fn law_name_kept_until_leave(
    book: Seq<(PeerAddr, Seq<char>)>,
    msgs: Seq<(PeerAddr, Seq<u8>)>,
    addr: PeerAddr,
)
    requires
        distinct_keys(book),
        forall|k: int| 0 <= k < msgs.len() ==> !((#[trigger] msgs[k]).0 == addr && msgs[k].1.len() == 0),
    ensures
        distinct_keys(run_book(book, msgs)),
        listed(book, addr) ==> lookup(run_book(book, msgs), addr) == lookup(book, addr),
    decreases msgs.len(),
{
    if msgs.len() > 0 {
        let next = step(book, msgs[0].0, msgs[0].1).0;
        law_step_keeps_addresses_distinct(book, msgs[0].0, msgs[0].1);
        law_book_changes_only_by_join_or_leave(book, msgs[0].0, msgs[0].1, addr);
        assert forall|k: int| 0 <= k < msgs.drop_first().len() implies !((#[trigger] msgs.drop_first()[k]).0
            == addr && msgs.drop_first()[k].1.len() == 0) by {
            assert(msgs.drop_first()[k] == msgs[k + 1]);
        }
        assert(!(msgs[0].0 == addr && msgs[0].1.len() == 0));
        if listed(book, addr) {
            assert(listed(next, addr)) by {
                let v = lookup(book, addr);
                assert(v is Some);
            }
        }
        law_name_kept_until_leave(next, msgs.drop_first(), addr);
    }
}

/// The announcement test and the name bytes, spelled out byte by byte.
proof fn lemma_join_bytes(msg: Seq<u8>)
    ensures
        is_join(msg) <==> (msg.len() >= 3 && msg[0] == 0x02u8 && msg[1] == 0x05u8 && msg[2] == 0x83u8),
        announced_bytes(msg) == msg.subrange(3, msg.len() as int),
{
    if msg.len() >= 3 {
        if msg[0] == 0x02u8 && msg[1] == 0x05u8 && msg[2] == 0x83u8 {
            assert(msg.subrange(0, 3) =~= seq![0x02u8, 0x05u8, 0x83u8]);
        } else {
            assert(msg.subrange(0, 3)[0] == msg[0]);
            assert(msg.subrange(0, 3)[1] == msg[1]);
            assert(msg.subrange(0, 3)[2] == msg[2]);
        }
    }
}

/// Law: the bytes 0x02 0x05 0x83 followed by the UTF-8 encoding of a name
/// (what `connection_request` builds) register an unknown sender under exactly
/// that name, at the end of the book.
pub proof fn law_announcement_registers_name(
    book: Seq<(PeerAddr, Seq<char>)>,
    sender: PeerAddr,
    name: Seq<char>,
)
    requires
        distinct_keys(book),
        forall|i: int| 0 <= i < book.len() ==> (#[trigger] book[i]).0 != sender,
    ensures
        step(book, sender, seq![0x02u8, 0x05u8, 0x83u8] + encode_utf8(name)) == (
            book.push((sender, name)),
            DispatchView::Joined(name),
        ),
        lookup(book.push((sender, name)), sender) == Some(name),
{
    let msg = seq![0x02u8, 0x05u8, 0x83u8] + encode_utf8(name);
    lemma_join_bytes(msg);
    assert(msg.subrange(3, msg.len() as int) =~= encode_utf8(name));
    encode_utf8_valid_utf8(name);
    encode_utf8_decode_utf8(name);
    assert(!listed(book, sender));
    law_step_keeps_addresses_distinct(book, sender, msg);
    lemma_slot(book.push((sender, name)), book.len() as int);
}

/// Law: a message from an unknown sender that starts with the bytes
/// 0x02 0x05 0x83 registers it, at the end of the book, under the name that
/// the rest of the message encodes in UTF-8 when the rest is well-formed
/// UTF-8; otherwise it changes nothing and is ignored.
pub proof fn law_join_step(book: Seq<(PeerAddr, Seq<char>)>, sender: PeerAddr, msg: Seq<u8>)
    requires
        forall|i: int| 0 <= i < book.len() ==> (#[trigger] book[i]).0 != sender,
        msg.len() >= 3,
        msg[0] == 0x02u8 && msg[1] == 0x05u8 && msg[2] == 0x83u8,
    ensures
        valid_utf8(msg.subrange(3, msg.len() as int)) ==> step(book, sender, msg) == (
            book.push((sender, decode_utf8(msg.subrange(3, msg.len() as int)))),
            DispatchView::Joined(decode_utf8(msg.subrange(3, msg.len() as int))),
        ),
        !valid_utf8(msg.subrange(3, msg.len() as int)) ==> step(book, sender, msg) == (
            book,
            DispatchView::Ignored,
        ),
{
    lemma_join_bytes(msg);
    assert(!listed(book, sender));
}

/// Law: a registered client that sends an empty message is removed from its
/// place in the book, the others staying in order, and the answer carries the
/// name that this client registered.
pub proof fn law_leave_answers_own_name(book: Seq<(PeerAddr, Seq<char>)>, sender: PeerAddr, i: int)
    requires
        distinct_keys(book),
        0 <= i < book.len(),
        book[i].0 == sender,
    ensures
        step(book, sender, Seq::empty()) == (book.remove(i), DispatchView::Left(book[i].1)),
{
    lemma_slot(book, i);
}

/// Law: a client that announced itself and then sends an empty message leaves
/// the book as it was before, and is answered with its name.
pub proof fn law_leave_undoes_join(
    book: Seq<(PeerAddr, Seq<char>)>,
    sender: PeerAddr,
    name: Seq<char>,
)
    requires
        distinct_keys(book),
        forall|i: int| 0 <= i < book.len() ==> (#[trigger] book[i]).0 != sender,
    ensures
        step(
            step(book, sender, seq![0x02u8, 0x05u8, 0x83u8] + encode_utf8(name)).0,
            sender,
            Seq::empty(),
        ) == (book, DispatchView::Left(name)),
{
    law_announcement_registers_name(book, sender, name);
    let joined = book.push((sender, name));
    law_step_keeps_addresses_distinct(book, sender, seq![0x02u8, 0x05u8, 0x83u8] + encode_utf8(name));
    law_leave_answers_own_name(joined, sender, book.len() as int);
    assert(joined.remove(book.len() as int) =~= book);
}

/// Law: a registered client cannot change its name: any further message that
/// starts with the bytes 0x02 0x05 0x83 from its address is ignored and the
/// book stays as it is.
pub proof fn law_no_renaming(book: Seq<(PeerAddr, Seq<char>)>, sender: PeerAddr, msg: Seq<u8>)
    requires
        listed(book, sender),
        msg.len() >= 3,
        msg[0] == 0x02u8 && msg[1] == 0x05u8 && msg[2] == 0x83u8,
    ensures
        step(book, sender, msg) == (book, DispatchView::Ignored),
{
    lemma_join_bytes(msg);
}

/// Law: a chat message (one that does not start with the bytes 0x02 0x05 0x83,
/// and is not an empty message from a registered client) leaves the book as it
/// is and is forwarded, as `deliveries_correct` describes: to every other
/// registered client once, in book order, each line being the whole UTF-8
/// encoding of the recipient's name, " : ", and the text for the first
/// recipient only.
pub proof fn law_chat_reaches_every_other_client(
    book: Seq<(PeerAddr, Seq<char>)>,
    sender: PeerAddr,
    msg: Seq<u8>,
)
    requires
        distinct_keys(book),
        !(msg.len() >= 3 && msg[0] == 0x02u8 && msg[1] == 0x05u8 && msg[2] == 0x83u8),
        !(msg.len() == 0 && listed(book, sender)),
    ensures
        step(book, sender, msg).0 == book,
        step(book, sender, msg).1 matches DispatchView::Forwarded(d) && deliveries_correct(book, sender, msg, d),
{
    lemma_join_bytes(msg);
    lemma_deliveries(book, sender, msg);
}

/// The message router of the server: it keeps the book of named clients.
pub struct Dispatcher {
    book: Vec<Client>,
    new_conn_seq: Vec<u8>,
}

impl View for Dispatcher {
    type V = Seq<(PeerAddr, Seq<char>)>;

    /// The book: the registered clients in the order in which they joined.
    closed spec fn view(&self) -> Seq<(PeerAddr, Seq<char>)> {
        self.book@.map_values(|c: Client| c@)
    }
}

impl Dispatcher {
    /// The dispatcher holds the announcement prefix.
    pub closed spec fn holds_prefix(&self) -> bool {
        self.new_conn_seq@ == join_prefix()
    }

    /// The dispatcher holds the announcement prefix and a book without
    /// repeated addresses.
    pub open spec fn wf(&self) -> bool {
        &&& self.holds_prefix()
        &&& distinct_keys(self@)
    }

    /// A dispatcher with an empty book.
    pub fn new() -> (d: Dispatcher)
        ensures
            d.wf(),
            d@ == Seq::<(PeerAddr, Seq<char>)>::empty(),
    {
        let d = Dispatcher { book: Vec::new(), new_conn_seq: new_connection_sequence() };
        assert(d@ =~= Seq::<(PeerAddr, Seq<char>)>::empty());
        d
    }

    /// The place of `addr` in the book.
    fn find(&self, addr: PeerAddr) -> (res: Option<usize>)
        requires
            self.wf(),
        ensures
            match res {
                Some(i) => i < self@.len() && listed(self@, addr) && slot(self@, addr)
                    == i && self@[i as int].0 == addr,
                None => !listed(self@, addr),
            },
    {
        let mut i: usize = 0;
        while i < self.book.len()
            invariant
                self.wf(),
                i <= self.book@.len(),
                self@.len() == self.book@.len(),
                forall|k: int| 0 <= k < i ==> self@[k].0 != addr,
            decreases self.book@.len() - i,
        {
            if self.book[i].addr == addr {
                proof {
                    assert(self@[i as int].0 == addr);
                    lemma_slot(self@, i as int);
                }
                return Some(i);
            }
            i = i + 1;
        }
        None
    }

    /// The name under which `addr` is registered, if it is.
    pub fn name_of(&self, addr: PeerAddr) -> (res: Option<String>)
        requires
            self.wf(),
        ensures
            match res {
                Some(s) => lookup(self@, addr) == Some(s@),
                None => lookup(self@, addr) is None,
            },
    {
        match self.find(addr) {
            Some(i) => Some(self.book[i].name.clone()),
            None => None,
        }
    }

    /// Handles one message `message` that arrived from `sender`, as [`step`]
    /// describes.
    pub fn handle(&mut self, sender: PeerAddr, message: Vec<u8>) -> (out: Dispatch)
        requires
            old(self).wf(),
        ensures
            final(self).wf(),
            final(self)@ == step(old(self)@, sender, message@).0,
            out@ == step(old(self)@, sender, message@).1,
    {
        let ghost book = self@;
        let found = self.find(sender);
        if message.len() == 0 && found.is_some() {
            let i = found.unwrap();
            let client = self.book.remove(i);
            proof {
                assert(self@ =~= book.remove(i as int));
                lemma_slot(book, i as int);
                law_step_keeps_addresses_distinct(book, sender, message@);
            }
            return Dispatch::Left { name: client.name };
        }
        if starts_with(message.as_slice(), self.new_conn_seq.as_slice()) {
            if found.is_none() {
                let start = self.new_conn_seq.len();
                let rest = slice_to_vec(slice_subrange(message.as_slice(), start, message.len()));
                match string_from_utf8(rest) {
                    Some(name) => {
                        let reply = name.clone();
                        self.book.push(Client { addr: sender, name });
                        proof {
                            assert(self@ =~= book.push((sender, reply@)));
                            law_step_keeps_addresses_distinct(book, sender, message@);
                        }
                        return Dispatch::Joined { name: reply };
                    },
                    None => {
                        return Dispatch::Ignored;
                    },
                }
            }
            return Dispatch::Ignored;
        }
        let ghost msg0 = message@;
        let mut body = message;
        let mut out: Vec<Outbound> = Vec::new();
        let mut i: usize = 0;
        assert(book.skip(0) =~= book);
        while i < self.book.len()
            invariant
                self.wf(),
                self@ == book,
                i <= book.len(),
                book.len() == self.book@.len(),
                outbound_views(out@) + deliveries(book.skip(i as int), sender, body@)
                    == deliveries(book, sender, msg0),
            decreases book.len() - i,
        {
            let ghost rest = book.skip(i as int);
            let ghost prev = outbound_views(out@);
            assert(rest.drop_first() =~= book.skip(i + 1));
            assert(rest[0] == book[i as int]);
            assert(book[i as int] == self.book@[i as int]@);
            let c = &self.book[i];
            if c.addr != sender {
                let mut line = slice_to_vec(c.name.as_str().as_bytes());
                line.push(0x20);
                line.push(0x3a);
                line.push(0x20);
                let ghost before = body@;
                line.append(&mut body);
                assert(line@ =~= chat_line(book[i as int].1, before));
                out.push(Outbound { to: c.addr, payload: line });
                assert(outbound_views(out@) =~= prev.push((book[i as int].0, chat_line(book[i as int].1, before))));
                assert(body@ =~= Seq::<u8>::empty());
                assert(seq![(book[i as int].0, chat_line(book[i as int].1, before))] + deliveries(book.skip(i + 1), sender, body@)
                    =~= deliveries(rest, sender, before));
                assert(outbound_views(out@) + deliveries(book.skip(i + 1), sender, body@)
                    =~= prev + deliveries(rest, sender, before));
            }
            i = i + 1;
        }
        assert(book.skip(i as int) =~= Seq::<(PeerAddr, Seq<char>)>::empty());
        assert(outbound_views(out@) =~= deliveries(book, sender, msg0));
        Dispatch::Forwarded { deliveries: out }
    }
}

} // verus!
