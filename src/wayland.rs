use vstd::prelude::*;
use vstd::utf8::{decode_utf8, valid_utf8};

verus! {

/// The value of four little-endian bytes.
pub open spec fn le_value(b: Seq<u8>) -> int {
    b[0] + 256 * b[1] + 65536 * b[2] + 16777216 * b[3]
}

/// The four little-endian bytes of `v`.
pub open spec fn le_bytes(v: int) -> Seq<u8> {
    seq![(v % 256) as u8, (v / 256 % 256) as u8, (v / 65536 % 256) as u8, (v / 16777216 % 256) as u8]
}

/// Relies on `String::from_utf8`: the text the bytes encode, when they are valid UTF-8.
#[verifier::external_body]
fn utf8_text(bytes: Vec<u8>) -> (r: Option<String>)
    ensures
        match r {
            Some(s) => valid_utf8(bytes@) && s@ == decode_utf8(bytes@),
            None => !valid_utf8(bytes@),
        },
{
    String::from_utf8(bytes).ok()
}

/// The little-endian word of `b` at `at`.
pub fn read_u32(b: &Vec<u8>, at: usize) -> (r: u32)
    requires
        at + 4 <= b@.len(),
    ensures
        r == le_value(b@.subrange(at as int, at + 4)),
{
    let len = b.len();
    assert(at + 4 <= len);
    let v = (b[at] as u32) + (b[at + 1] as u32) * 256 + (b[at + 2] as u32) * 65536 + (b[at + 3] as u32) * 16777216;
    assert(b@.subrange(at as int, at + 4)[0] == b@[at as int]);
    v
}

fn push_u32(out: &mut Vec<u8>, v: u32)
    ensures
        final(out)@ == old(out)@ + le_bytes(v as int),
{
    out.push((v % 256) as u8);
    out.push((v / 256 % 256) as u8);
    out.push((v / 65536 % 256) as u8);
    out.push((v / 16777216) as u8);
    assert(final(out)@ =~= old(out)@ + le_bytes(v as int));
}

/// A message to the compositor: the object id, then a word holding the opcode in its
/// low half and the message size in its high half, then the payload.
pub fn encode_message(object_id: u32, opcode: u32, payload: &Vec<u8>) -> (r: Vec<u8>)
    requires
        opcode <= 0xffff,
        payload@.len() + 8 <= 0xffff,
    ensures
        r@ == le_bytes(object_id as int) + le_bytes(opcode + (payload@.len() + 8) * 65536) + payload@,
{
    let size = payload.len() as u32 + 8;
    let mut message: Vec<u8> = Vec::new();
    push_u32(&mut message, object_id);
    push_u32(&mut message, opcode + size * 65536);
    let mut i: usize = 0;
    let ghost head = message@;
    while i < payload.len()
        invariant
            i <= payload@.len(),
            message@ == head + payload@.take(i as int),
        decreases payload.len() - i,
    {
        message.push(payload[i]);
        assert(message@ =~= head + payload@.take(i + 1));
        i = i + 1;
    }
    assert(payload@.take(i as int) =~= payload@);
    message
}

/// The header of a message from the compositor.
#[derive(Debug, Clone, Copy, PartialEq, Eq, Structural)]
pub struct MessageHeader {
    pub object_id: u32,
    pub opcode: u32,
    pub size: u32,
}

/// Reads the eight header bytes: the object id, then the opcode in the low half and the
/// total size in the high half of the second word.
pub fn decode_header(header: &Vec<u8>) -> (r: MessageHeader)
    requires
        header@.len() == 8,
    ensures
        r.object_id == le_value(header@.subrange(0, 4)),
        r.opcode == le_value(header@.subrange(4, 8)) % 65536,
        r.size == le_value(header@.subrange(4, 8)) / 65536,
{
    let object_id = read_u32(header, 0);
    let word = read_u32(header, 4);
    MessageHeader { object_id, opcode: word % 65536, size: word / 65536 }
}

/// The bytes of a string argument: a length word counting a terminating zero, then the
/// bytes; none when the payload is too short or the length is zero.
pub open spec fn string_bytes(payload: Seq<u8>) -> Option<Seq<u8>> {
    if payload.len() < 4 {
        None
    } else {
        let n = le_value(payload.subrange(0, 4));
        if n == 0 || 4 + n > payload.len() {
            None
        } else {
            Some(payload.subrange(4, 4 + n - 1))
        }
    }
}

/// Reads a string argument at the start of `payload`.
pub fn read_string(payload: &Vec<u8>) -> (r: Option<String>)
    ensures
        match string_bytes(payload@) {
            Some(b) => match r {
                Some(s) => valid_utf8(b) && s@ == decode_utf8(b),
                None => !valid_utf8(b),
            },
            None => r is None,
        },
{
    if payload.len() < 4 {
        return None;
    }
    let n = read_u32(payload, 0) as usize;
    if n == 0 || n > payload.len() - 4 {
        return None;
    }
    let mut bytes: Vec<u8> = Vec::new();
    let mut i: usize = 4;
    let end: usize = 4 + n - 1;
    while i < end
        invariant
            4 <= i <= end,
            end == 4 + n - 1,
            4 + n <= payload@.len(),
            bytes@ == payload@.subrange(4, i as int),
        decreases end - i,
    {
        bytes.push(payload[i]);
        assert(bytes@ =~= payload@.subrange(4, i + 1));
        i = i + 1;
    }
    utf8_text(bytes)
}

/// `payload` from `at` on.
pub fn tail(payload: &Vec<u8>, at: usize) -> (r: Vec<u8>)
    ensures
        r@ == (if at <= payload@.len() { payload@.subrange(at as int, payload@.len() as int) } else { Seq::empty() }),
{
    let mut out: Vec<u8> = Vec::new();
    let mut i: usize = at;
    if at > payload.len() {
        return out;
    }
    while i < payload.len()
        invariant
            at <= i <= payload@.len(),
            out@ == payload@.subrange(at as int, i as int),
        decreases payload.len() - i,
    {
        out.push(payload[i]);
        assert(out@ =~= payload@.subrange(at as int, i + 1));
        i = i + 1;
    }
    out
}

/// The interface name a registry global announces: the string after its name word.
pub open spec fn global_interface(payload: Seq<u8>) -> Option<Seq<char>> {
    if payload.len() < 4 {
        None
    } else {
        match string_bytes(payload.subrange(4, payload.len() as int)) {
            Some(b) => if valid_utf8(b) { Some(decode_utf8(b)) } else { None },
            None => None,
        }
    }
}

/// What to do with a message while looking for a global interface.
#[derive(Debug, Clone, PartialEq, Eq)]
pub enum BindAction {
    /// Keep reading.
    Wait,
    /// Send this bind request payload to the registry.
    Bind(Vec<u8>),
    /// The registry announced everything and the interface was not among it.
    NotFound,
}

/// Handles one message while looking for the global interface `name`: a registry global
/// (object 2, event 0) announcing it is bound as object 4, by echoing its payload with
/// the new id; the end of the announcements (object 3) means it is missing.
pub fn bind_step(object_id: u32, event: u32, payload: &Vec<u8>, name: &String) -> (r: BindAction)
    ensures
        object_id == 2 && event == 0 && global_interface(payload@) == Some(name@) ==> r is Bind && r->Bind_0@ == payload@
            + seq![4u8, 0u8, 0u8, 0u8],
        !(object_id == 2 && event == 0 && global_interface(payload@) == Some(name@)) ==> r == (if object_id == 3 {
            BindAction::NotFound
        } else {
            BindAction::Wait
        }),
{
    if object_id == 2 && event == 0 && payload.len() >= 4 {
        let rest = tail(payload, 4);
        match read_string(&rest) {
            Some(interface) => {
                if interface == *name {
                    let mut p = tail(payload, 0);
                    assert(p@ =~= payload@);
                    p.push(4);
                    p.push(0);
                    p.push(0);
                    p.push(0);
                    assert(p@ =~= payload@ + seq![4u8, 0u8, 0u8, 0u8]);
                    return BindAction::Bind(p);
                }
            },
            None => {},
        }
    }
    if object_id == 3 {
        BindAction::NotFound
    } else {
        BindAction::Wait
    }
}

/// A toplevel window the compositor announced, with what it said of it so far.
#[derive(Debug, Clone, PartialEq, Eq)]
pub struct TrackedWindow {
    pub id: u32,
    pub title: Option<String>,
    pub class_name: Option<String>,
}

/// The index of the window with id `id`.
pub open spec fn window_index(ws: Seq<TrackedWindow>, id: u32) -> Option<int> {
    if exists|i: int| 0 <= i < ws.len() && ws[i].id == id {
        Some(choose|i: int| 0 <= i < ws.len() && ws[i].id == id)
    } else {
        None
    }
}

/// Whether a state event says the window is activated: its first state is 2.
pub open spec fn activated(payload: Seq<u8>) -> bool {
    payload.len() >= 5 && payload[0] > 0 && payload[4] == 2
}

/// The text a string argument holds, when it can be read.
pub open spec fn string_arg(payload: Seq<u8>) -> Option<Seq<char>> {
    match string_bytes(payload) {
        Some(b) => if valid_utf8(b) { Some(decode_utf8(b)) } else { None },
        None => None,
    }
}

/// The toplevel windows, by id, as the foreign-toplevel protocol reports them.
#[derive(Debug, Clone)]
pub struct WindowTracker {
    windows: Vec<TrackedWindow>,
}

impl View for WindowTracker {
    type V = Seq<TrackedWindow>;

    closed spec fn view(&self) -> Seq<TrackedWindow> {
        self.windows@
    }
}

/// The text of an optional string.
pub open spec fn opt_text(s: Option<String>) -> Option<Seq<char>> {
    match s {
        Some(t) => Some(t@),
        None => None,
    }
}

/// The text of an optional string, empty when absent.
pub open spec fn text_or_empty(s: Option<String>) -> Seq<char> {
    match s {
        Some(t) => t@,
        None => Seq::empty(),
    }
}

fn text_or_default(s: &Option<String>) -> (r: String)
    ensures
        r@ == text_or_empty(*s),
{
    match s {
        Some(t) => t.clone(),
        None => String::new(),
    }
}

impl WindowTracker {
    /// Window ids are distinct.
    pub open spec fn wf(&self) -> bool {
        forall|i: int, j: int| 0 <= i < j < self@.len() ==> self@[i].id != self@[j].id
    }

    /// No window known.
    pub fn new() -> (r: WindowTracker)
        ensures
            r.wf(),
            r@.len() == 0,
    {
        WindowTracker { windows: Vec::new() }
    }

    fn find(&self, id: u32) -> (r: Option<usize>)
        requires
            self.wf(),
        ensures
            match r {
                Some(i) => i < self@.len() && self@[i as int].id == id && window_index(self@, id) == Some(i as int),
                None => window_index(self@, id) is None,
            },
    {
        let mut i: usize = 0;
        while i < self.windows.len()
            invariant
                i <= self@.len(),
                self.wf(),
                forall|k: int| 0 <= k < i ==> self@[k].id != id,
            decreases self.windows.len() - i,
        {
            if self.windows[i].id == id {
                assert(window_index(self@, id) == Some(i as int)) by {
                    let c = choose|k: int| 0 <= k < self@.len() && self@[k].id == id;
                    assert(c == i as int);
                }
                return Some(i);
            }
            i = i + 1;
        }
        None
    }

    /// Handles one message from the compositor. A new toplevel (object 4, event 0) is
    /// tracked afresh; a tracked window's title (event 0) and app id (event 1) are kept;
    /// when its state (event 4) says it is activated, its class and title are returned,
    /// empty where not yet known.
    pub fn handle(&mut self, object_id: u32, event: u32, payload: &Vec<u8>) -> (r: Option<(String, String)>)
        requires
            old(self).wf(),
        ensures
            final(self).wf(),
            ({
                let announced = object_id == 4 && event == 0 && payload@.len() >= 4;
                let new_id = le_value(payload@.subrange(0, 4));
                let base = if announced {
                    match window_index(old(self)@, new_id as u32) {
                        Some(i) => old(self)@.update(i, TrackedWindow { id: new_id as u32, title: None, class_name: None }),
                        None => old(self)@.push(TrackedWindow { id: new_id as u32, title: None, class_name: None }),
                    }
                } else {
                    old(self)@
                };
                match window_index(base, object_id) {
                    None => final(self)@ == base && r is None,
                    Some(i) => {
                        let w = base[i];
                        if event == 0 && string_arg(payload@) is Some {
                            final(self)@.len() == base.len() && final(self)@[i].id == w.id
                                && final(self)@[i].class_name == w.class_name
                                && opt_text(final(self)@[i].title) == string_arg(payload@)
                                && (forall|k: int| 0 <= k < base.len() && k != i ==> final(self)@[k] == base[k])
                                && r is None
                        } else if event == 1 && string_arg(payload@) is Some {
                            final(self)@.len() == base.len() && final(self)@[i].id == w.id
                                && final(self)@[i].title == w.title
                                && opt_text(final(self)@[i].class_name) == string_arg(payload@)
                                && (forall|k: int| 0 <= k < base.len() && k != i ==> final(self)@[k] == base[k])
                                && r is None
                        } else if event == 4 && activated(payload@) {
                            final(self)@ == base && r is Some && r->Some_0.0@ == text_or_empty(w.class_name)
                                && r->Some_0.1@ == text_or_empty(w.title)
                        } else {
                            final(self)@ == base && r is None
                        }
                    },
                }
            }),
    {
        let ghost start = self@;
        if object_id == 4 && event == 0 && payload.len() >= 4 {
            let id = read_u32(payload, 0);
            let fresh = TrackedWindow { id, title: None, class_name: None };
            match self.find(id) {
                Some(i) => {
                    self.windows.set(i, fresh);
                },
                None => {
                    self.windows.push(fresh);
                },
            }
            assert(self.wf());
        }
        let ghost base = self@;
        let i = match self.find(object_id) {
            Some(i) => i,
            None => return None,
        };
        if event == 0 || event == 1 {
            match read_string(payload) {
                Some(text) => {
                    let w = &self.windows[i];
                    let updated = if event == 0 {
                        TrackedWindow { id: w.id, title: Some(text), class_name: w.class_name.clone() }
                    } else {
                        TrackedWindow { id: w.id, title: w.title.clone(), class_name: Some(text) }
                    };
                    self.windows.set(i, updated);
                    assert(self.wf());
                },
                None => {},
            }
            return None;
        }
        if event == 4 && payload.len() >= 5 && payload[0] > 0 && payload[4] == 2 {
            let w = &self.windows[i];
            return Some((text_or_default(&w.class_name), text_or_default(&w.title)));
        }
        None
    }
}

} // verus!
