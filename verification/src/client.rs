//! The address registry, dispatch engine and query facade.
//!
//! A client owns one typed control store per registered address. Each update
//! cycle it is handed the batch of inbound messages drained from the
//! transport; every message is resolved against the registry (exact match
//! first, then the array-address grammar over grid bases), decoded according
//! to the resolved control kind, and stored. Typed getters read the latest
//! value back; calling a getter of the wrong kind returns that kind's zero
//! value, while querying an address that was never registered is a
//! configuration error and is ruled out by contract.

use vstd::prelude::*;

use crate::address::array_index_within;
use crate::address::array_suffix;
use crate::address::str_eq;
use crate::controls::TouchOscButton;
use crate::controls::TouchOscEncoder;
use crate::controls::TouchOscFader;
use crate::controls::TouchOscGrid;
use crate::controls::TouchOscRadar;
use crate::controls::TouchOscRadial;
use crate::controls::TouchOscRadio;
use crate::controls::TouchOscXY;
use crate::fixed::Fx;
use crate::fixed::FxPair;
use crate::fixed::remap_fx;

verus! {

/// The closed set of control kinds.
#[derive(Clone, Copy, PartialEq, Eq, Structural, Debug)]
pub enum TouchOscInputType {
    Button,
    Fader,
    Grid,
    Encoder,
    Radar,
    Radial,
    Radio,
    XY,
}

/// One argument of an inbound message: the transport delivers 32-bit floats
/// (carried here as fixed-point numbers) and 32-bit signed integers; any
/// other payload type never matches a decode rule.
#[derive(Clone, Copy, PartialEq, Eq, Structural, Debug)]
pub enum OscArg {
    Float(Fx),
    Int(i32),
    Unsupported,
}

/// An inbound control message: a hierarchical address and its payload.
pub struct OscMessage {
    pub addr: String,
    pub args: Vec<OscArg>,
}

/// The mathematical shape of a message.
pub struct MsgModel {
    pub addr: Seq<char>,
    pub args: Seq<OscArg>,
}

impl View for OscMessage {
    type V = MsgModel;

    open spec fn view(&self) -> MsgModel {
        MsgModel { addr: self.addr@, args: self.args@ }
    }
}

/// One registered control store, tagged by kind.
pub enum TouchOscInput {
    Button(TouchOscButton),
    Fader(TouchOscFader),
    Grid(TouchOscGrid),
    Encoder(TouchOscEncoder),
    Radar(TouchOscRadar),
    Radial(TouchOscRadial),
    Radio(TouchOscRadio),
    XY(TouchOscXY),
}

/// The mathematical shape of a grid: its base address and its sub-stores.
pub struct GridModel {
    pub base: Seq<char>,
    pub faders: Seq<TouchOscFader>,
}

/// The mathematical shape of a registered store.
pub enum InputModel {
    Button(TouchOscButton),
    Fader(TouchOscFader),
    Grid(GridModel),
    Encoder(TouchOscEncoder),
    Radar(TouchOscRadar),
    Radial(TouchOscRadial),
    Radio(TouchOscRadio),
    XY(TouchOscXY),
}

impl TouchOscInput {
    /// The kind tag of this store.
    pub fn kind(&self) -> (k: TouchOscInputType)
        ensures
            k == self@.kind(),
    {
        match self {
            TouchOscInput::Button(_) => TouchOscInputType::Button,
            TouchOscInput::Fader(_) => TouchOscInputType::Fader,
            TouchOscInput::Grid(_) => TouchOscInputType::Grid,
            TouchOscInput::Encoder(_) => TouchOscInputType::Encoder,
            TouchOscInput::Radar(_) => TouchOscInputType::Radar,
            TouchOscInput::Radial(_) => TouchOscInputType::Radial,
            TouchOscInput::Radio(_) => TouchOscInputType::Radio,
            TouchOscInput::XY(_) => TouchOscInputType::XY,
        }
    }
}

impl View for TouchOscInput {
    type V = InputModel;

    open spec fn view(&self) -> InputModel {
        match *self {
            TouchOscInput::Button(b) => InputModel::Button(b),
            TouchOscInput::Fader(f) => InputModel::Fader(f),
            TouchOscInput::Grid(ref g) => InputModel::Grid(
                GridModel { base: g.base_addr@, faders: g.faders@ },
            ),
            TouchOscInput::Encoder(e) => InputModel::Encoder(e),
            TouchOscInput::Radar(r) => InputModel::Radar(r),
            TouchOscInput::Radial(r) => InputModel::Radial(r),
            TouchOscInput::Radio(r) => InputModel::Radio(r),
            TouchOscInput::XY(p) => InputModel::XY(p),
        }
    }
}

impl InputModel {
    /// The kind tag of a store.
    pub open spec fn kind(self) -> TouchOscInputType {
        match self {
            InputModel::Button(_) => TouchOscInputType::Button,
            InputModel::Fader(_) => TouchOscInputType::Fader,
            InputModel::Grid(_) => TouchOscInputType::Grid,
            InputModel::Encoder(_) => TouchOscInputType::Encoder,
            InputModel::Radar(_) => TouchOscInputType::Radar,
            InputModel::Radial(_) => TouchOscInputType::Radial,
            InputModel::Radio(_) => TouchOscInputType::Radio,
            InputModel::XY(_) => TouchOscInputType::XY,
        }
    }
}

/// One row of the registry: a registered address and the store it owns.
pub struct ClientEntry {
    pub addr: String,
    pub input: TouchOscInput,
}

/// The mathematical shape of a registry row.
pub struct EntryModel {
    pub addr: Seq<char>,
    pub input: InputModel,
}

impl View for ClientEntry {
    type V = EntryModel;

    open spec fn view(&self) -> EntryModel {
        EntryModel { addr: self.addr@, input: self.input@ }
    }
}

/// Whether some registered address equals `a`.
pub open spec fn spec_has_addr(s: Seq<EntryModel>, a: Seq<char>) -> bool {
    exists|i: int| 0 <= i < s.len() && s[i].addr == a
}

/// Whether row `i` is the first row registered under `a`.
pub open spec fn is_exact_match(s: Seq<EntryModel>, a: Seq<char>, i: int) -> bool {
    &&& 0 <= i < s.len()
    &&& s[i].addr == a
    &&& forall|j: int| 0 <= j < i ==> s[j].addr != a
}

/// The first row registered under `a`.
pub open spec fn lookup(s: Seq<EntryModel>, a: Seq<char>) -> EntryModel {
    s[choose|i: int| is_exact_match(s, a, i)]
}

/// At most one row is the first row under `a`.
pub proof fn lemma_exact_match_unique(s: Seq<EntryModel>, a: Seq<char>, i: int, j: int)
    requires
        is_exact_match(s, a, i),
        is_exact_match(s, a, j),
    ensures
        i == j,
{
    if i < j {
        assert(s[i].addr != a);
    } else if j < i {
        assert(s[j].addr != a);
    }
}

/// A registered address has a first row.
pub proof fn lemma_first_exact_exists(s: Seq<EntryModel>, a: Seq<char>)
    requires
        spec_has_addr(s, a),
    ensures
        exists|i: int| is_exact_match(s, a, i),
{
    let w = choose|i: int| 0 <= i < s.len() && s[i].addr == a;
    lemma_first_exact_from_witness(s, a, w);
}

proof fn lemma_first_exact_from_witness(s: Seq<EntryModel>, a: Seq<char>, w: int)
    requires
        0 <= w < s.len(),
        s[w].addr == a,
    ensures
        exists|i: int| is_exact_match(s, a, i),
    decreases w,
{
    if forall|j: int| 0 <= j < w ==> s[j].addr != a {
        assert(is_exact_match(s, a, w));
    } else {
        let v = choose|j: int| 0 <= j < w && s[j].addr == a;
        lemma_first_exact_from_witness(s, a, v);
    }
}

/// Registered addresses are pairwise distinct.
pub open spec fn unique_addrs(s: Seq<EntryModel>) -> bool {
    forall|i: int, j: int| 0 <= i < j < s.len() ==> s[i].addr != s[j].addr
}

/// Law: registering a fresh address keeps the registered addresses pairwise
/// distinct, whatever the kind of the new store; a second registration of
/// the same address is excluded by contract, so uniqueness can never break.
pub proof fn lemma_register_preserves_uniqueness(s: Seq<EntryModel>, e: EntryModel)
    requires
        unique_addrs(s),
        !spec_has_addr(s, e.addr),
    ensures
        unique_addrs(s.push(e)),
{
    let t = s.push(e);
    assert forall|i: int, j: int| 0 <= i < j < t.len() implies t[i].addr != t[j].addr by {
        if j < s.len() {
            assert(s[i].addr != s[j].addr);
        } else {
            assert(t[j] == e);
            assert(!(0 <= i < s.len() && s[i].addr == e.addr));
        }
    }
}

/// Whether the payload shape of `args` fits the decode rule of `input`'s
/// kind: one float for switches, scalars and grid sub-stores, two floats for
/// the two-dimensional kinds, one integer for a discrete index.
pub open spec fn args_fit(input: InputModel, args: Seq<OscArg>) -> bool {
    match input {
        InputModel::Button(_) => args.len() == 1 && args[0] is Float,
        InputModel::Fader(_) => args.len() == 1 && args[0] is Float,
        InputModel::Encoder(_) => args.len() == 1 && args[0] is Float,
        InputModel::Radial(_) => args.len() == 1 && args[0] is Float,
        InputModel::Grid(_) => args.len() == 1 && args[0] is Float,
        InputModel::Radar(_) => args.len() == 2 && args[0] is Float && args[1] is Float,
        InputModel::XY(_) => args.len() == 2 && args[0] is Float && args[1] is Float,
        InputModel::Radio(_) => args.len() == 1 && args[0] is Int,
    }
}

/// The decode rule applied on an exact address match: if the payload shape
/// fits the store's kind, the store's value is overwritten per that kind's
/// rule; on any mismatch the store keeps its previous value. A grid base
/// never decodes on an exact match.
pub open spec fn input_decode(input: InputModel, args: Seq<OscArg>) -> InputModel {
    if args_fit(input, args) {
        match input {
            InputModel::Button(b) => InputModel::Button(
                TouchOscButton { state: args[0]->Float_0.units > 0, ..b },
            ),
            InputModel::Fader(f) => InputModel::Fader(
                TouchOscFader { value: remap_fx(args[0]->Float_0, f.min, f.max), ..f },
            ),
            InputModel::Encoder(e) => InputModel::Encoder(
                TouchOscEncoder { value: remap_fx(args[0]->Float_0, e.min, e.max), ..e },
            ),
            InputModel::Radial(r) => InputModel::Radial(
                TouchOscRadial { value: remap_fx(args[0]->Float_0, r.min, r.max), ..r },
            ),
            InputModel::Grid(g) => InputModel::Grid(g),
            InputModel::Radar(r) => InputModel::Radar(
                TouchOscRadar {
                    values: FxPair {
                        x: remap_fx(args[0]->Float_0, r.rad_min, r.rad_max),
                        y: remap_fx(args[1]->Float_0, r.rot_min, r.rot_max),
                    },
                    ..r
                },
            ),
            InputModel::XY(p) => InputModel::XY(
                TouchOscXY {
                    values: FxPair {
                        x: remap_fx(args[0]->Float_0, p.min, p.max),
                        y: remap_fx(args[1]->Float_0, p.min, p.max),
                    },
                    ..p
                },
            ),
            InputModel::Radio(r) => InputModel::Radio(TouchOscRadio { value: args[0]->Int_0, ..r }),
        }
    } else {
        input
    }
}

/// The decode rule for a grid sub-store: on a fitting one-float payload the
/// sub-store at 1-based index `n` is rescaled-and-stored; otherwise the grid
/// keeps its previous values.
pub open spec fn grid_decode(g: GridModel, n: int, args: Seq<OscArg>) -> GridModel {
    if args.len() == 1 && args[0] is Float {
        GridModel {
            base: g.base,
            faders: g.faders.update(
                n - 1,
                TouchOscFader {
                    value: remap_fx(args[0]->Float_0, g.faders[n - 1].min, g.faders[n - 1].max),
                    ..g.faders[n - 1]
                },
            ),
        }
    } else {
        g
    }
}

/// Whether row `e` is a grid whose base address matches `a` at an index that
/// names one of its sub-stores.
pub open spec fn grid_hit(e: EntryModel, a: Seq<char>) -> bool {
    &&& e.input is Grid
    &&& array_suffix(e.addr, a) is Some
    &&& 1 <= array_suffix(e.addr, a)->Some_0 <= e.input->Grid_0.faders.len()
}

/// Whether row `i` is the first grid row that `a` routes into.
pub open spec fn is_grid_target(s: Seq<EntryModel>, a: Seq<char>, i: int) -> bool {
    &&& 0 <= i < s.len()
    &&& grid_hit(s[i], a)
    &&& forall|j: int| 0 <= j < i ==> !grid_hit(s[j], a)
}

/// At most one row is the first grid target of `a`.
pub proof fn lemma_grid_target_unique(s: Seq<EntryModel>, a: Seq<char>, i: int, j: int)
    requires
        is_grid_target(s, a, i),
        is_grid_target(s, a, j),
    ensures
        i == j,
{
    if i < j {
        assert(!grid_hit(s[i], a));
    } else if j < i {
        assert(!grid_hit(s[j], a));
    }
}

/// One dispatch step: how a registry reacts to one inbound message.
/// Exact-address resolution wins: a message whose address is registered under
/// a non-grid kind is consumed there, decoded (or silently dropped on a
/// payload mismatch). Otherwise the address is matched against the
/// array-address grammar over the registered grid bases and routed to the
/// named sub-store when it exists. A message matching nothing is ignored.
pub open spec fn dispatch_spec(s: Seq<EntryModel>, a: Seq<char>, args: Seq<OscArg>) -> Seq<
    EntryModel,
> {
    if spec_has_addr(s, a) && !(lookup(s, a).input is Grid) {
        let i = choose|i: int| is_exact_match(s, a, i);
        s.update(i, EntryModel { addr: s[i].addr, input: input_decode(s[i].input, args) })
    } else if exists|i: int| is_grid_target(s, a, i) {
        let i = choose|i: int| is_grid_target(s, a, i);
        let n = array_suffix(s[i].addr, a)->Some_0;
        s.update(
            i,
            EntryModel {
                addr: s[i].addr,
                input: InputModel::Grid(grid_decode(s[i].input->Grid_0, n, args)),
            },
        )
    } else {
        s
    }
}

/// A whole update cycle: the buffered messages dispatched one by one, in
/// arrival order.
pub open spec fn dispatch_all(s: Seq<EntryModel>, msgs: Seq<MsgModel>) -> Seq<EntryModel>
    decreases msgs.len(),
{
    if msgs.len() == 0 {
        s
    } else {
        dispatch_all(dispatch_spec(s, msgs[0].addr, msgs[0].args), msgs.drop_first())
    }
}

/// The dispatch of a batch with one more message at its end is the dispatch
/// of the batch followed by one step for that message.
pub proof fn lemma_dispatch_all_snoc(s: Seq<EntryModel>, msgs: Seq<MsgModel>, m: MsgModel)
    ensures
        dispatch_all(s, msgs.push(m)) == dispatch_spec(dispatch_all(s, msgs), m.addr, m.args),
    decreases msgs.len(),
{
    if msgs.len() == 0 {
        assert(msgs.push(m)[0] == m);
        assert(msgs.push(m).drop_first() =~= Seq::<MsgModel>::empty());
        let step = dispatch_spec(s, m.addr, m.args);
        assert(dispatch_all(step, Seq::<MsgModel>::empty()) == step);
        assert(dispatch_all(s, msgs.push(m)) == dispatch_all(step, msgs.push(m).drop_first()));
        assert(dispatch_all(s, msgs) == s);
    } else {
        assert(msgs.push(m)[0] == msgs[0]);
        assert(msgs.push(m).drop_first() =~= msgs.drop_first().push(m));
        let step = dispatch_spec(s, msgs[0].addr, msgs[0].args);
        lemma_dispatch_all_snoc(step, msgs.drop_first(), m);
        assert(dispatch_all(s, msgs.push(m)) == dispatch_all(step, msgs.drop_first().push(m)));
        assert(dispatch_all(s, msgs) == dispatch_all(step, msgs.drop_first()));
    }
}

/// The mathematical shape of a batch of messages.
pub open spec fn msgs_view(msgs: Seq<OscMessage>) -> Seq<MsgModel> {
    msgs.map_values(|m: OscMessage| m@)
}

/// What the switch getter answers: the flag of the store registered under
/// `a`, or `false` on a kind mismatch.
pub open spec fn button_state_spec(s: Seq<EntryModel>, a: Seq<char>) -> bool {
    match lookup(s, a).input {
        InputModel::Button(b) => b.state,
        _ => false,
    }
}

/// What the fader getter answers: the stored value in output units, or zero
/// on a kind mismatch.
pub open spec fn fader_value_spec(s: Seq<EntryModel>, a: Seq<char>) -> Fx {
    match lookup(s, a).input {
        InputModel::Fader(f) => f.value,
        _ => Fx::spec_zero(),
    }
}

/// What the encoder getter answers: the stored value in output units, or
/// zero on a kind mismatch.
pub open spec fn encoder_value_spec(s: Seq<EntryModel>, a: Seq<char>) -> Fx {
    match lookup(s, a).input {
        InputModel::Encoder(e) => e.value,
        _ => Fx::spec_zero(),
    }
}

/// What the radial getter answers: the stored value in output units, or zero
/// on a kind mismatch.
pub open spec fn radial_value_spec(s: Seq<EntryModel>, a: Seq<char>) -> Fx {
    match lookup(s, a).input {
        InputModel::Radial(r) => r.value,
        _ => Fx::spec_zero(),
    }
}

/// What the radar getter answers: the stored (radius, angle) pair, or the
/// origin pair on a kind mismatch.
pub open spec fn radar_values_spec(s: Seq<EntryModel>, a: Seq<char>) -> FxPair {
    match lookup(s, a).input {
        InputModel::Radar(r) => r.values,
        _ => FxPair::spec_origin(),
    }
}

/// What the radio getter answers: the stored index, or zero on a kind
/// mismatch.
pub open spec fn radio_value_spec(s: Seq<EntryModel>, a: Seq<char>) -> i32 {
    match lookup(s, a).input {
        InputModel::Radio(r) => r.value,
        _ => 0,
    }
}

/// What the two-dimensional getter answers: the stored (x, y) pair, or the
/// origin pair on a kind mismatch.
pub open spec fn xy_values_spec(s: Seq<EntryModel>, a: Seq<char>) -> FxPair {
    match lookup(s, a).input {
        InputModel::XY(p) => p.values,
        _ => FxPair::spec_origin(),
    }
}

/// Whether `a` matches the array-address grammar over row `e`'s address,
/// whatever the row's kind and the index's value.
pub open spec fn any_base_hit(e: EntryModel, a: Seq<char>) -> bool {
    array_suffix(e.addr, a) is Some
}

/// Whether row `i` is the first row whose address `a` matches as an array
/// address.
pub open spec fn is_first_base_hit(s: Seq<EntryModel>, a: Seq<char>, i: int) -> bool {
    &&& 0 <= i < s.len()
    &&& any_base_hit(s[i], a)
    &&& forall|j: int| 0 <= j < i ==> !any_base_hit(s[j], a)
}

/// At most one row is the first base hit of `a`.
pub proof fn lemma_first_base_hit_unique(s: Seq<EntryModel>, a: Seq<char>, i: int, j: int)
    requires
        is_first_base_hit(s, a, i),
        is_first_base_hit(s, a, j),
    ensures
        i == j,
{
    if i < j {
        assert(!any_base_hit(s[i], a));
    } else if j < i {
        assert(!any_base_hit(s[j], a));
    }
}

/// The grid getter's precondition: `a` must resolve, that is match the
/// array-address grammar over some registered base, and if the first such
/// base is a grid, `a` must name a sub-store that exists. Asking about an
/// address that resolves to nothing registered, or about a sub-address
/// outside a grid, is a fatal configuration error.
pub open spec fn grid_query_ok(s: Seq<EntryModel>, a: Seq<char>) -> bool {
    &&& exists|i: int| is_first_base_hit(s, a, i)
    &&& forall|i: int| #[trigger]
        is_first_base_hit(s, a, i) ==> (s[i].input is Grid ==> 1 <= array_suffix(s[i].addr, a)->Some_0
            <= s[i].input->Grid_0.faders.len())
}

/// What the grid getter answers: the value of the sub-store that `a` routes
/// into under the first matching base, in output units; zero when that base
/// is registered under another kind.
pub open spec fn grid_value_spec(s: Seq<EntryModel>, a: Seq<char>) -> Fx {
    if exists|i: int| is_first_base_hit(s, a, i) {
        let i = choose|i: int| is_first_base_hit(s, a, i);
        match s[i].input {
            InputModel::Grid(g) => g.faders[array_suffix(s[i].addr, a)->Some_0 - 1].value,
            _ => Fx::spec_zero(),
        }
    } else {
        Fx::spec_zero()
    }
}

/// The registry, the dispatch engine and the query facade in one value: the
/// client owns every registered store and is the only thing that mutates
/// them.
pub struct TouchOscClient {
    inputs: Vec<ClientEntry>,
}

impl View for TouchOscClient {
    type V = Seq<EntryModel>;

    closed spec fn view(&self) -> Seq<EntryModel> {
        Seq::new(self.inputs@.len(), |i: int| self.inputs@[i]@)
    }
}

impl TouchOscClient {
    /// A client with nothing registered.
    pub fn new() -> (r: TouchOscClient)
        ensures
            r@ == Seq::<EntryModel>::empty(),
    {
        let r = TouchOscClient { inputs: Vec::new() };
        proof {
            assert(r@ =~= Seq::<EntryModel>::empty());
        }
        r
    }

    /// The first row registered under `addr`, if any.
    fn find_exact(&self, addr: &str) -> (r: Option<usize>)
        ensures
            match r {
                Some(i) => is_exact_match(self@, addr@, i as int),
                None => !spec_has_addr(self@, addr@),
            },
    {
        let n = self.inputs.len();
        let mut i: usize = 0;
        while i < n
            invariant
                i <= n,
                n == self.inputs@.len(),
                forall|j: int| 0 <= j < i ==> self@[j].addr != addr@,
            decreases n - i,
        {
            if str_eq(self.inputs[i].addr.as_str(), addr) {
                proof {
                    assert(self@[i as int].addr == addr@);
                }
                return Some(i);
            }
            proof {
                assert(self@[i as int].addr != addr@);
            }
            i = i + 1;
        }
        None
    }

    /// Whether `addr` is registered. Querying an unregistered address is a
    /// fatal configuration error; callers test with this function and fail
    /// on a negative answer.
    pub fn verify_has_addr(&self, addr: &str) -> (r: bool)
        ensures
            r == spec_has_addr(self@, addr@),
    {
        match self.find_exact(addr) {
            Some(_) => true,
            None => false,
        }
    }

    /// Whether `addr` is still free. Registering an address twice is a fatal
    /// configuration error, whatever the kind; callers test with this
    /// function and fail on a negative answer.
    pub fn verify_free_addr(&self, addr: &str) -> (r: bool)
        ensures
            r == !spec_has_addr(self@, addr@),
    {
        match self.find_exact(addr) {
            Some(_) => false,
            None => true,
        }
    }

    fn push_entry(&mut self, addr: &str, input: TouchOscInput)
        ensures
            final(self)@ == old(self)@.push(EntryModel { addr: addr@, input: input@ }),
    {
        self.inputs.push(ClientEntry { addr: String::from_str(addr), input });
        proof {
            assert(self@ =~= old(self)@.push(EntryModel { addr: addr@, input: input@ }));
        }
    }

    /// Apply the exact-match decode rule to the store in row `i`.
    fn decode_exact_at(&mut self, i: usize, args: &Vec<OscArg>)
        requires
            i < old(self)@.len(),
        ensures
            final(self)@ == old(self)@.update(
                i as int,
                EntryModel {
                    addr: old(self)@[i as int].addr,
                    input: input_decode(old(self)@[i as int].input, args@),
                },
            ),
    {
        let n_args = args.len();
        let e = &mut self.inputs[i];
        match &mut e.input {
            TouchOscInput::Button(b) => {
                if n_args == 1 {
                    if let OscArg::Float(x) = args[0] {
                        b.set_state(x);
                    }
                }
            },
            TouchOscInput::Fader(f) => {
                if n_args == 1 {
                    if let OscArg::Float(x) = args[0] {
                        f.set_value(x);
                    }
                }
            },
            TouchOscInput::Encoder(en) => {
                if n_args == 1 {
                    if let OscArg::Float(x) = args[0] {
                        en.set_value(x);
                    }
                }
            },
            TouchOscInput::Radial(r) => {
                if n_args == 1 {
                    if let OscArg::Float(x) = args[0] {
                        r.set_value(x);
                    }
                }
            },
            TouchOscInput::Radar(r) => {
                if n_args == 2 {
                    if let OscArg::Float(x) = args[0] {
                        if let OscArg::Float(y) = args[1] {
                            r.set_values(FxPair { x, y });
                        }
                    }
                }
            },
            TouchOscInput::XY(p) => {
                if n_args == 2 {
                    if let OscArg::Float(x) = args[0] {
                        if let OscArg::Float(y) = args[1] {
                            p.set_values(FxPair { x, y });
                        }
                    }
                }
            },
            TouchOscInput::Radio(r) => {
                if n_args == 1 {
                    if let OscArg::Int(v) = args[0] {
                        r.set_value(v);
                    }
                }
            },
            TouchOscInput::Grid(_) => {},
        }
        proof {
            assert(self@ =~= old(self)@.update(
                i as int,
                EntryModel {
                    addr: old(self)@[i as int].addr,
                    input: input_decode(old(self)@[i as int].input, args@),
                },
            ));
        }
    }

    /// One step of the dispatch pass: resolve one message and decode it into
    /// the store it routes to, if any.
    #[verifier::loop_isolation(false)]
    fn dispatch(&mut self, addr: &str, args: &Vec<OscArg>)
        ensures
            final(self)@ == dispatch_spec(old(self)@, addr@, args@),
    {
        match self.find_exact(addr) {
            Some(i) => {
                let k = self.inputs[i].input.kind();
                if k != TouchOscInputType::Grid {
                    proof {
                        assert(spec_has_addr(old(self)@, addr@));
                        let c = choose|j: int| is_exact_match(old(self)@, addr@, j);
                        lemma_exact_match_unique(old(self)@, addr@, i as int, c);
                        assert(lookup(old(self)@, addr@) == old(self)@[i as int]);
                    }
                    self.decode_exact_at(i, args);
                    return;
                }
                proof {
                    assert(spec_has_addr(old(self)@, addr@));
                    let c = choose|j: int| is_exact_match(old(self)@, addr@, j);
                    lemma_exact_match_unique(old(self)@, addr@, i as int, c);
                    assert(lookup(old(self)@, addr@).input is Grid);
                }
            },
            None => {},
        }
        let n = self.inputs.len();
        let mut k: usize = 0;
        while k < n
            invariant
                k <= n,
                n == self.inputs@.len(),
                self@ == old(self)@,
                forall|j: int| 0 <= j < k ==> !grid_hit(self@[j], addr@),
            decreases n - k,
        {
            let hit: Option<usize> = match &self.inputs[k].input {
                TouchOscInput::Grid(g) => array_index_within(
                    self.inputs[k].addr.as_str(),
                    addr,
                    g.faders.len(),
                ),
                _ => None,
            };
            match hit {
                Some(sub) => {
                    proof {
                        assert(grid_hit(self@[k as int], addr@));
                        assert(is_grid_target(old(self)@, addr@, k as int));
                    }
                    let e = &mut self.inputs[k];
                    if let TouchOscInput::Grid(g) = &mut e.input {
                        if args.len() == 1 {
                            if let OscArg::Float(x) = args[0] {
                                let f = &mut g.faders[sub - 1];
                                f.set_value(x);
                            }
                        }
                    }
                    proof {
                        let c = choose|j: int| is_grid_target(old(self)@, addr@, j);
                        lemma_grid_target_unique(old(self)@, addr@, k as int, c);
                        assert(self@ =~= dispatch_spec(old(self)@, addr@, args@));
                    }
                    return;
                },
                None => {
                    proof {
                        assert(!grid_hit(self@[k as int], addr@));
                    }
                },
            }
            k = k + 1;
        }
        proof {
            assert(forall|j: int| !is_grid_target(old(self)@, addr@, j));
            assert(self@ =~= dispatch_spec(old(self)@, addr@, args@));
        }
    }

    /// A whole update cycle: dispatch every buffered inbound message, in
    /// arrival order. Messages matching nothing registered are ignored; a
    /// payload mismatch leaves the resolved store unchanged; every other
    /// message overwrites the store it routes to.
    #[verifier::loop_isolation(false)]
    pub fn update(&mut self, messages: &Vec<OscMessage>)
        ensures
            final(self)@ == dispatch_all(old(self)@, msgs_view(messages@)),
    {
        let n = messages.len();
        let mut k: usize = 0;
        while k < n
            invariant
                k <= n,
                n == messages@.len(),
                self@ == dispatch_all(old(self)@, msgs_view(messages@.subrange(0, k as int))),
            decreases n - k,
        {
            let m = &messages[k];
            proof {
                lemma_dispatch_all_snoc(
                    old(self)@,
                    msgs_view(messages@.subrange(0, k as int)),
                    messages@[k as int]@,
                );
                assert(msgs_view(messages@.subrange(0, k as int + 1)) =~= msgs_view(
                    messages@.subrange(0, k as int),
                ).push(messages@[k as int]@));
            }
            self.dispatch(m.addr.as_str(), &m.args);
            k = k + 1;
        }
        proof {
            assert(messages@.subrange(0, n as int) =~= messages@);
        }
    }

    /// The current state of the switch registered under `addr`: its boolean
    /// flag, or `false` when `addr` is registered under another kind. The
    /// address must be registered; querying an unregistered address is a
    /// configuration error.
    pub fn button(&self, addr: &str) -> (r: bool)
        requires
            spec_has_addr(self@, addr@),
        ensures
            r == button_state_spec(self@, addr@),
    {
        match self.find_exact(addr) {
            Some(i) => {
                proof {
                    let c = choose|j: int| is_exact_match(self@, addr@, j);
                    lemma_exact_match_unique(self@, addr@, i as int, c);
                }
                match &self.inputs[i].input {
                    TouchOscInput::Button(b) => b.state(),
                    _ => false,
                }
            },
            None => {
                proof {
                    assert(false);
                }
                false
            },
        }
    }

    /// The current value of the fader registered under `addr`, in output
    /// units, or zero when `addr` is registered under another kind. The
    /// address must be registered.
    pub fn fader(&self, addr: &str) -> (r: Fx)
        requires
            spec_has_addr(self@, addr@),
        ensures
            r == fader_value_spec(self@, addr@),
    {
        match self.find_exact(addr) {
            Some(i) => {
                proof {
                    let c = choose|j: int| is_exact_match(self@, addr@, j);
                    lemma_exact_match_unique(self@, addr@, i as int, c);
                }
                match &self.inputs[i].input {
                    TouchOscInput::Fader(f) => f.value(),
                    _ => Fx::zero(),
                }
            },
            None => {
                proof {
                    assert(false);
                }
                Fx::zero()
            },
        }
    }

    /// The current value of the encoder registered under `addr`, in output
    /// units, or zero when `addr` is registered under another kind. The
    /// address must be registered.
    pub fn encoder(&self, addr: &str) -> (r: Fx)
        requires
            spec_has_addr(self@, addr@),
        ensures
            r == encoder_value_spec(self@, addr@),
    {
        match self.find_exact(addr) {
            Some(i) => {
                proof {
                    let c = choose|j: int| is_exact_match(self@, addr@, j);
                    lemma_exact_match_unique(self@, addr@, i as int, c);
                }
                match &self.inputs[i].input {
                    TouchOscInput::Encoder(e) => e.value(),
                    _ => Fx::zero(),
                }
            },
            None => {
                proof {
                    assert(false);
                }
                Fx::zero()
            },
        }
    }

    /// The current value of the radial registered under `addr`, in output
    /// units, or zero when `addr` is registered under another kind. The
    /// address must be registered.
    pub fn radial(&self, addr: &str) -> (r: Fx)
        requires
            spec_has_addr(self@, addr@),
        ensures
            r == radial_value_spec(self@, addr@),
    {
        match self.find_exact(addr) {
            Some(i) => {
                proof {
                    let c = choose|j: int| is_exact_match(self@, addr@, j);
                    lemma_exact_match_unique(self@, addr@, i as int, c);
                }
                match &self.inputs[i].input {
                    TouchOscInput::Radial(r) => r.value(),
                    _ => Fx::zero(),
                }
            },
            None => {
                proof {
                    assert(false);
                }
                Fx::zero()
            },
        }
    }

    /// The current (radius, angle) pair of the radar registered under `addr`,
    /// or the origin pair when `addr` is registered under another kind. The
    /// address must be registered.
    pub fn radar(&self, addr: &str) -> (r: FxPair)
        requires
            spec_has_addr(self@, addr@),
        ensures
            r == radar_values_spec(self@, addr@),
    {
        match self.find_exact(addr) {
            Some(i) => {
                proof {
                    let c = choose|j: int| is_exact_match(self@, addr@, j);
                    lemma_exact_match_unique(self@, addr@, i as int, c);
                }
                match &self.inputs[i].input {
                    TouchOscInput::Radar(r) => r.values(),
                    _ => FxPair::origin(),
                }
            },
            None => {
                proof {
                    assert(false);
                }
                FxPair::origin()
            },
        }
    }

    /// The current index of the radio registered under `addr`, or zero when
    /// `addr` is registered under another kind. The address must be
    /// registered.
    pub fn radio(&self, addr: &str) -> (r: i32)
        requires
            spec_has_addr(self@, addr@),
        ensures
            r == radio_value_spec(self@, addr@),
    {
        match self.find_exact(addr) {
            Some(i) => {
                proof {
                    let c = choose|j: int| is_exact_match(self@, addr@, j);
                    lemma_exact_match_unique(self@, addr@, i as int, c);
                }
                match &self.inputs[i].input {
                    TouchOscInput::Radio(r) => r.value(),
                    _ => 0,
                }
            },
            None => {
                proof {
                    assert(false);
                }
                0
            },
        }
    }

    /// The current (x, y) pair of the two-dimensional point registered under
    /// `addr`, or the origin pair when `addr` is registered under another
    /// kind. The address must be registered.
    pub fn xy(&self, addr: &str) -> (r: FxPair)
        requires
            spec_has_addr(self@, addr@),
        ensures
            r == xy_values_spec(self@, addr@),
    {
        match self.find_exact(addr) {
            Some(i) => {
                proof {
                    let c = choose|j: int| is_exact_match(self@, addr@, j);
                    lemma_exact_match_unique(self@, addr@, i as int, c);
                }
                match &self.inputs[i].input {
                    TouchOscInput::XY(p) => p.values(),
                    _ => FxPair::origin(),
                }
            },
            None => {
                proof {
                    assert(false);
                }
                FxPair::origin()
            },
        }
    }

    /// The current value of the grid sub-store that `addr` routes into, in
    /// output units: the first registered base that `addr` matches decides,
    /// and a match on a base of another kind yields zero. The address must
    /// resolve to some registered base, and when that base is a grid it must
    /// name a sub-store that exists; asking about any other address is a
    /// fatal configuration error.
    pub fn grid(&self, addr: &str) -> (r: Fx)
        requires
            grid_query_ok(self@, addr@),
        ensures
            r == grid_value_spec(self@, addr@),
    {
        let n = self.inputs.len();
        let mut k: usize = 0;
        while k < n
            invariant
                k <= n,
                n == self.inputs@.len(),
                grid_query_ok(self@, addr@),
                forall|j: int| 0 <= j < k ==> !any_base_hit(self@[j], addr@),
            decreases n - k,
        {
            if crate::address::matches_array_grammar(self.inputs[k].addr.as_str(), addr) {
                proof {
                    assert(any_base_hit(self@[k as int], addr@));
                    assert(is_first_base_hit(self@, addr@, k as int));
                    let c = choose|j: int| is_first_base_hit(self@, addr@, j);
                    lemma_first_base_hit_unique(self@, addr@, k as int, c);
                }
                match &self.inputs[k].input {
                    TouchOscInput::Grid(g) => {
                        match array_index_within(self.inputs[k].addr.as_str(), addr, g.faders.len()) {
                            Some(sub) => {
                                return g.faders[sub - 1].value();
                            },
                            None => {
                                proof {
                                    assert(false);
                                }
                                return Fx::zero();
                            },
                        }
                    },
                    _ => {
                        return Fx::zero();
                    },
                }
            }
            proof {
                assert(!any_base_hit(self@[k as int], addr@));
            }
            k = k + 1;
        }
        proof {
            let w = choose|i: int| is_first_base_hit(self@, addr@, i);
            assert(any_base_hit(self@[w], addr@));
            assert(false);
        }
        Fx::zero()
    }

    /// Whether the grid getter may be asked about `addr`: some registered
    /// base must match it as an array address, and when the first matching
    /// base is a grid the index must name a sub-store that exists. Callers
    /// test with this function and fail on a negative answer, since asking
    /// about an unresolved address or an out-of-range sub-address is a fatal
    /// configuration error.
    pub fn grid_query_in_range(&self, addr: &str) -> (r: bool)
        ensures
            r == grid_query_ok(self@, addr@),
    {
        let n = self.inputs.len();
        let mut k: usize = 0;
        while k < n
            invariant
                k <= n,
                n == self.inputs@.len(),
                forall|j: int| 0 <= j < k ==> !any_base_hit(self@[j], addr@),
            decreases n - k,
        {
            if crate::address::matches_array_grammar(self.inputs[k].addr.as_str(), addr) {
                proof {
                    assert(is_first_base_hit(self@, addr@, k as int));
                }
                match &self.inputs[k].input {
                    TouchOscInput::Grid(g) => {
                        match array_index_within(self.inputs[k].addr.as_str(), addr, g.faders.len()) {
                            Some(_) => {
                                proof {
                                    assert forall|i: int| #[trigger]
                                        is_first_base_hit(self@, addr@, i) implies (self@[i].input is Grid
                                        ==> 1 <= array_suffix(self@[i].addr, addr@)->Some_0
                                        <= self@[i].input->Grid_0.faders.len()) by {
                                        lemma_first_base_hit_unique(self@, addr@, k as int, i);
                                    }
                                }
                                return true;
                            },
                            None => {
                                proof {
                                    assert(self@[k as int].input is Grid);
                                    assert(array_suffix(self@[k as int].addr, addr@) is Some);
                                    assert(!grid_query_ok(self@, addr@));
                                }
                                return false;
                            },
                        }
                    },
                    _ => {
                        proof {
                            assert forall|i: int| #[trigger]
                                is_first_base_hit(self@, addr@, i) implies (self@[i].input is Grid
                                ==> 1 <= array_suffix(self@[i].addr, addr@)->Some_0
                                <= self@[i].input->Grid_0.faders.len()) by {
                                lemma_first_base_hit_unique(self@, addr@, k as int, i);
                            }
                        }
                        return true;
                    },
                }
            }
            proof {
                assert(!any_base_hit(self@[k as int], addr@));
            }
            k = k + 1;
        }
        proof {
            if exists|i: int| is_first_base_hit(self@, addr@, i) {
                let w = choose|i: int| is_first_base_hit(self@, addr@, i);
                assert(any_base_hit(self@[w], addr@));
            }
        }
        false
    }

    /// Register a switch under a fresh address.
    pub fn add_button(&mut self, addr: &str, default: bool)
        requires
            !spec_has_addr(old(self)@, addr@),
        ensures
            final(self)@ == old(self)@.push(
                EntryModel {
                    addr: addr@,
                    input: InputModel::Button(TouchOscButton::spec_new(default)),
                },
            ),
            spec_has_addr(final(self)@, addr@),
    {
        self.push_entry(addr, TouchOscInput::Button(TouchOscButton::new(default)));
        proof {
            assert(self@[old(self)@.len() as int].addr == addr@);
        }
    }

    /// Register a scalar fader under a fresh address.
    pub fn add_fader(&mut self, addr: &str, min: Fx, max: Fx, default: Fx)
        requires
            !spec_has_addr(old(self)@, addr@),
        ensures
            final(self)@ == old(self)@.push(
                EntryModel {
                    addr: addr@,
                    input: InputModel::Fader(TouchOscFader::spec_new(min, max, default)),
                },
            ),
            spec_has_addr(final(self)@, addr@),
    {
        self.push_entry(addr, TouchOscInput::Fader(TouchOscFader::new(min, max, default)));
        proof {
            assert(self@[old(self)@.len() as int].addr == addr@);
        }
    }

    /// Register a grouped-scalar array of `size` sub-stores under a fresh
    /// base address.
    pub fn add_grid(&mut self, addr: &str, size: usize, min: Fx, max: Fx, default: Fx)
        requires
            !spec_has_addr(old(self)@, addr@),
        ensures
            final(self)@ == old(self)@.push(
                EntryModel {
                    addr: addr@,
                    input: InputModel::Grid(
                        GridModel {
                            base: addr@,
                            faders: Seq::new(
                                size as nat,
                                |i: int| TouchOscFader::spec_new(min, max, default),
                            ),
                        },
                    ),
                },
            ),
            spec_has_addr(final(self)@, addr@),
    {
        let grid = TouchOscGrid::new(addr, size, min, max, default);
        self.push_entry(addr, TouchOscInput::Grid(grid));
        proof {
            assert(self@[old(self)@.len() as int].addr == addr@);
        }
    }

    /// Register an angle encoder under a fresh address.
    pub fn add_encoder(&mut self, addr: &str, min: Fx, max: Fx, default: Fx)
        requires
            !spec_has_addr(old(self)@, addr@),
        ensures
            final(self)@ == old(self)@.push(
                EntryModel {
                    addr: addr@,
                    input: InputModel::Encoder(TouchOscEncoder::spec_new(min, max, default)),
                },
            ),
            spec_has_addr(final(self)@, addr@),
    {
        self.push_entry(addr, TouchOscInput::Encoder(TouchOscEncoder::new(min, max, default)));
        proof {
            assert(self@[old(self)@.len() as int].addr == addr@);
        }
    }

    /// Register a polar pair under a fresh address: radius bounds and default
    /// in the first triple, angle bounds and default in the second.
    pub fn add_radar(&mut self, addr: &str, rad: (Fx, Fx, Fx), rot: (Fx, Fx, Fx))
        requires
            !spec_has_addr(old(self)@, addr@),
        ensures
            final(self)@ == old(self)@.push(
                EntryModel {
                    addr: addr@,
                    input: InputModel::Radar(TouchOscRadar::spec_new(rad, rot)),
                },
            ),
            spec_has_addr(final(self)@, addr@),
    {
        self.push_entry(addr, TouchOscInput::Radar(TouchOscRadar::new(rad, rot)));
        proof {
            assert(self@[old(self)@.len() as int].addr == addr@);
        }
    }

    /// Register a bounded radial under a fresh address.
    pub fn add_radial(&mut self, addr: &str, min: Fx, max: Fx, default: Fx)
        requires
            !spec_has_addr(old(self)@, addr@),
        ensures
            final(self)@ == old(self)@.push(
                EntryModel {
                    addr: addr@,
                    input: InputModel::Radial(TouchOscRadial::spec_new(min, max, default)),
                },
            ),
            spec_has_addr(final(self)@, addr@),
    {
        self.push_entry(addr, TouchOscInput::Radial(TouchOscRadial::new(min, max, default)));
        proof {
            assert(self@[old(self)@.len() as int].addr == addr@);
        }
    }

    /// Register a discrete index control under a fresh address.
    pub fn add_radio(&mut self, addr: &str, size: usize, default: i32)
        requires
            !spec_has_addr(old(self)@, addr@),
        ensures
            final(self)@ == old(self)@.push(
                EntryModel {
                    addr: addr@,
                    input: InputModel::Radio(TouchOscRadio::spec_new(size, default)),
                },
            ),
            spec_has_addr(final(self)@, addr@),
    {
        self.push_entry(addr, TouchOscInput::Radio(TouchOscRadio::new(size, default)));
        proof {
            assert(self@[old(self)@.len() as int].addr == addr@);
        }
    }

    /// Register a bounded two-dimensional point under a fresh address.
    pub fn add_xy(&mut self, addr: &str, min: Fx, max: Fx, default: Fx)
        requires
            !spec_has_addr(old(self)@, addr@),
        ensures
            final(self)@ == old(self)@.push(
                EntryModel {
                    addr: addr@,
                    input: InputModel::XY(TouchOscXY::spec_new(min, max, default)),
                },
            ),
            spec_has_addr(final(self)@, addr@),
    {
        self.push_entry(addr, TouchOscInput::XY(TouchOscXY::new(min, max, default)));
        proof {
            assert(self@[old(self)@.len() as int].addr == addr@);
        }
    }
}

/// Law: a store registered under a fresh address is found by lookup exactly
/// as it was registered, so each getter answers the registered default (in
/// output units) until some matching inbound message overwrites the store.
pub proof fn lemma_fresh_registration_lookup(s: Seq<EntryModel>, e: EntryModel)
    requires
        !spec_has_addr(s, e.addr),
    ensures
        spec_has_addr(s.push(e), e.addr),
        lookup(s.push(e), e.addr) == e,
{
    let t = s.push(e);
    assert(t[s.len() as int] == e);
    assert forall|j: int| 0 <= j < s.len() implies t[j].addr != e.addr by {
        assert(t[j] == s[j]);
        assert(!(0 <= j < s.len() && s[j].addr == e.addr));
    }
    assert(is_exact_match(t, e.addr, s.len() as int));
    let c = choose|i: int| is_exact_match(t, e.addr, i);
    lemma_exact_match_unique(t, e.addr, s.len() as int, c);
}

/// Law: one dispatch step for a message addressed elsewhere leaves the store
/// registered under a leaf address untouched: lookup finds the very same
/// store before and after the step.
pub proof fn lemma_dispatch_other_addr_preserves_lookup(
    s: Seq<EntryModel>,
    a: Seq<char>,
    b: Seq<char>,
    args: Seq<OscArg>,
)
    requires
        spec_has_addr(s, a),
        !(lookup(s, a).input is Grid),
        a != b,
    ensures
        spec_has_addr(dispatch_spec(s, b, args), a),
        lookup(dispatch_spec(s, b, args), a) == lookup(s, a),
{
    lemma_first_exact_exists(s, a);
    let f = choose|i: int| is_exact_match(s, a, i);
    lemma_exact_match_unique(s, a, f, f);
    assert(lookup(s, a) == s[f]);
    if spec_has_addr(s, b) {
        lemma_first_exact_exists(s, b);
    }
    let t = dispatch_spec(s, b, args);
    if spec_has_addr(s, b) && !(lookup(s, b).input is Grid) {
        let ei = choose|i: int| is_exact_match(s, b, i);
        assert(s[ei].addr == b);
        assert(ei != f);
        assert(t[f] == s[f]);
        assert(forall|j: int| 0 <= j < s.len() ==> t[j].addr == s[j].addr);
    } else if exists|i: int| is_grid_target(s, b, i) {
        let gi = choose|i: int| is_grid_target(s, b, i);
        assert(s[gi].input is Grid);
        assert(gi != f);
        assert(t[f] == s[f]);
        assert(forall|j: int| 0 <= j < s.len() ==> t[j].addr == s[j].addr);
    } else {
        assert(t == s);
    }
    assert(is_exact_match(t, a, f));
    let c = choose|i: int| is_exact_match(t, a, i);
    lemma_exact_match_unique(t, a, f, c);
    assert(lookup(t, a) == t[f]);
}

/// Law: the registered default survives a whole update cycle in which no
/// message carries the store's own address; only a matching inbound message
/// ever changes what a leaf getter answers.
pub proof fn lemma_default_until_first_matching_message(
    s: Seq<EntryModel>,
    a: Seq<char>,
    msgs: Seq<MsgModel>,
)
    requires
        spec_has_addr(s, a),
        !(lookup(s, a).input is Grid),
        forall|i: int| 0 <= i < msgs.len() ==> (#[trigger] msgs[i]).addr != a,
    ensures
        spec_has_addr(dispatch_all(s, msgs), a),
        lookup(dispatch_all(s, msgs), a) == lookup(s, a),
    decreases msgs.len(),
{
    if msgs.len() > 0 {
        lemma_dispatch_other_addr_preserves_lookup(s, a, msgs[0].addr, msgs[0].args);
        let s1 = dispatch_spec(s, msgs[0].addr, msgs[0].args);
        assert forall|i: int| 0 <= i < msgs.drop_first().len() implies (#[trigger] msgs.drop_first()[i]).addr
            != a by {
            assert(msgs.drop_first()[i] == msgs[i + 1]);
        }
        lemma_default_until_first_matching_message(s1, a, msgs.drop_first());
    }
}

/// Law: switch thresholding. A one-float message for an address registered
/// as a switch sets the flag to whether the payload is strictly positive; a
/// payload of zero or less turns the switch off; the cached initial payload
/// never changes.
pub proof fn lemma_switch_threshold(s: Seq<EntryModel>, a: Seq<char>, x: Fx, args: Seq<OscArg>)
    requires
        spec_has_addr(s, a),
        lookup(s, a).input is Button,
        args == seq![OscArg::Float(x)],
    ensures
        spec_has_addr(dispatch_spec(s, a, args), a),
        lookup(dispatch_spec(s, a, args), a).input == InputModel::Button(
            TouchOscButton { state: x.units > 0, value: lookup(s, a).input->Button_0.value },
        ),
{
    lemma_first_exact_exists(s, a);
    let f = choose|i: int| is_exact_match(s, a, i);
    assert(lookup(s, a) == s[f]);
    let t = dispatch_spec(s, a, args);
    assert(args.len() == 1);
    assert(args[0] == OscArg::Float(x));
    assert(t == s.update(
        f,
        EntryModel { addr: s[f].addr, input: input_decode(s[f].input, args) },
    ));
    assert(forall|j: int| 0 <= j < s.len() ==> t[j].addr == s[j].addr);
    assert(is_exact_match(t, a, f));
    let c = choose|i: int| is_exact_match(t, a, i);
    lemma_exact_match_unique(t, a, f, c);
    assert(lookup(t, a) == t[f]);
}

/// Law: one dispatch step for a message that does not route into a given
/// grid leaves that grid's row untouched, every sub-store included.
pub proof fn lemma_dispatch_preserves_foreign_grid_row(
    s: Seq<EntryModel>,
    b: Seq<char>,
    args: Seq<OscArg>,
    gi: int,
)
    requires
        0 <= gi < s.len(),
        s[gi].input is Grid,
        !grid_hit(s[gi], b),
    ensures
        dispatch_spec(s, b, args)[gi] == s[gi],
{
    if spec_has_addr(s, b) {
        lemma_first_exact_exists(s, b);
    }
    let t = dispatch_spec(s, b, args);
    if spec_has_addr(s, b) && !(lookup(s, b).input is Grid) {
        let ei = choose|i: int| is_exact_match(s, b, i);
        assert(lookup(s, b) == s[ei]);
        assert(ei != gi);
    } else if exists|i: int| is_grid_target(s, b, i) {
        let ti = choose|i: int| is_grid_target(s, b, i);
        assert(grid_hit(s[ti], b));
        assert(ti != gi);
    }
}

/// Law: a grid sub-store keeps its value — in particular the registered
/// default, in output units — across every update cycle whose messages do
/// not route into its grid: what the grid getter answers under `a` changes
/// only when a message for one of the grid's own sub-addresses arrives.
pub proof fn lemma_grid_default_until_first_matching_message(
    s: Seq<EntryModel>,
    a: Seq<char>,
    gi: int,
    msgs: Seq<MsgModel>,
)
    requires
        is_first_base_hit(s, a, gi),
        s[gi].input is Grid,
        forall|k: int| 0 <= k < msgs.len() ==> !grid_hit(s[gi], (#[trigger] msgs[k]).addr),
    ensures
        is_first_base_hit(dispatch_all(s, msgs), a, gi),
        dispatch_all(s, msgs)[gi] == s[gi],
        grid_value_spec(dispatch_all(s, msgs), a) == grid_value_spec(s, a),
    decreases msgs.len(),
{
    if msgs.len() > 0 {
        let t1 = dispatch_spec(s, msgs[0].addr, msgs[0].args);
        lemma_dispatch_preserves_foreign_grid_row(s, msgs[0].addr, msgs[0].args, gi);
        lemma_dispatch_preserves_addresses(s, msgs[0].addr, msgs[0].args);
        assert(is_first_base_hit(t1, a, gi)) by {
            assert(t1[gi] == s[gi]);
            assert forall|j: int| 0 <= j < gi implies !any_base_hit(t1[j], a) by {
                assert(t1[j].addr == s[j].addr);
            }
        }
        assert forall|k: int| 0 <= k < msgs.drop_first().len() implies !grid_hit(
            t1[gi],
            (#[trigger] msgs.drop_first()[k]).addr,
        ) by {
            assert(msgs.drop_first()[k] == msgs[k + 1]);
        }
        lemma_grid_default_until_first_matching_message(t1, a, gi, msgs.drop_first());
        let c1 = choose|i: int| is_first_base_hit(t1, a, i);
        lemma_first_base_hit_unique(t1, a, gi, c1);
        let c0 = choose|i: int| is_first_base_hit(s, a, i);
        lemma_first_base_hit_unique(s, a, gi, c0);
        assert(grid_value_spec(t1, a) == grid_value_spec(s, a));
        assert(dispatch_all(s, msgs) == dispatch_all(t1, msgs.drop_first()));
    }
}

/// Law: right after a grid is registered under a fresh base, each of its
/// sub-addresses resolves to that grid and the getter answers the sub-store's
/// registered default, in output units. No other registered base can capture
/// the sub-address, since an address resolves to at most one base.
pub proof fn lemma_fresh_grid_resolution(s: Seq<EntryModel>, e: EntryModel, a: Seq<char>)
    requires
        !spec_has_addr(s, e.addr),
        array_suffix(e.addr, a) is Some,
    ensures
        is_first_base_hit(s.push(e), a, s.len() as int),
        e.input is Grid && 1 <= array_suffix(e.addr, a)->Some_0 <= e.input->Grid_0.faders.len()
            ==> grid_value_spec(s.push(e), a) == e.input->Grid_0.faders[array_suffix(
            e.addr,
            a,
        )->Some_0 - 1].value,
{
    let t = s.push(e);
    assert(t[s.len() as int] == e);
    assert forall|j: int| 0 <= j < s.len() implies !any_base_hit(t[j], a) by {
        assert(t[j] == s[j]);
        if any_base_hit(s[j], a) {
            crate::address::lemma_array_base_unique(s[j].addr, e.addr, a);
            assert(!(0 <= j < s.len() && s[j].addr == e.addr));
        }
    }
    assert(is_first_base_hit(t, a, s.len() as int));
    let c = choose|i: int| is_first_base_hit(t, a, i);
    lemma_first_base_hit_unique(t, a, s.len() as int, c);
}

/// Law: range-mapped decode. A one-float message for an address registered
/// as a fader rescales the payload linearly into the fader's configured
/// interval — the stored value becomes `min + x * (max - min)`, clamped to
/// the representable range — and the bounds themselves stay as configured.
pub proof fn lemma_fader_decode(s: Seq<EntryModel>, a: Seq<char>, x: Fx, args: Seq<OscArg>)
    requires
        spec_has_addr(s, a),
        lookup(s, a).input is Fader,
        args == seq![OscArg::Float(x)],
    ensures
        spec_has_addr(dispatch_spec(s, a, args), a),
        lookup(dispatch_spec(s, a, args), a).input == InputModel::Fader(
            TouchOscFader {
                value: remap_fx(x, lookup(s, a).input->Fader_0.min, lookup(s, a).input->Fader_0.max),
                ..lookup(s, a).input->Fader_0
            },
        ),
{
    lemma_first_exact_exists(s, a);
    let f = choose|i: int| is_exact_match(s, a, i);
    assert(lookup(s, a) == s[f]);
    let t = dispatch_spec(s, a, args);
    assert(args.len() == 1);
    assert(args[0] == OscArg::Float(x));
    assert(t == s.update(
        f,
        EntryModel { addr: s[f].addr, input: input_decode(s[f].input, args) },
    ));
    assert(forall|j: int| 0 <= j < s.len() ==> t[j].addr == s[j].addr);
    assert(is_exact_match(t, a, f));
    let c = choose|i: int| is_exact_match(t, a, i);
    lemma_exact_match_unique(t, a, f, c);
    assert(lookup(t, a) == t[f]);
}

/// Law: a message whose payload shape does not fit the kind registered under
/// its own address is a silent no-op: the resolved store, and every other
/// store, keeps its previous value bit for bit.
pub proof fn lemma_mismatched_payload_is_noop(s: Seq<EntryModel>, a: Seq<char>, args: Seq<OscArg>)
    requires
        spec_has_addr(s, a),
        !(lookup(s, a).input is Grid),
        !args_fit(lookup(s, a).input, args),
    ensures
        dispatch_spec(s, a, args) == s,
{
    lemma_first_exact_exists(s, a);
    let f = choose|i: int| is_exact_match(s, a, i);
    assert(lookup(s, a) == s[f]);
    let t = dispatch_spec(s, a, args);
    assert(input_decode(s[f].input, args) == s[f].input);
    assert((EntryModel { addr: s[f].addr, input: s[f].input }) == s[f]);
    assert(t =~= s);
}

/// Law: a message that resolves (at most) to a grid sub-store but does not
/// carry the single float such a sub-store decodes is a silent no-op: every
/// sub-store keeps its previous value bit for bit.
pub proof fn lemma_mismatched_grid_payload_is_noop(
    s: Seq<EntryModel>,
    a: Seq<char>,
    args: Seq<OscArg>,
)
    requires
        !(spec_has_addr(s, a) && !(lookup(s, a).input is Grid)),
        !(args.len() == 1 && args[0] is Float),
    ensures
        dispatch_spec(s, a, args) == s,
{
    let t = dispatch_spec(s, a, args);
    if exists|i: int| is_grid_target(s, a, i) {
        let gi = choose|i: int| is_grid_target(s, a, i);
        let g = s[gi].input->Grid_0;
        assert(grid_decode(g, array_suffix(s[gi].addr, a)->Some_0, args) == g);
        assert(InputModel::Grid(g) == s[gi].input);
        assert((EntryModel { addr: s[gi].addr, input: s[gi].input }) == s[gi]);
        assert(t =~= s);
    } else {
        assert(t == s);
    }
}

/// Law: a dispatch step never registers or removes a store: it keeps the
/// number of rows and every registered address exactly as they were, whatever
/// the message says.
pub proof fn lemma_dispatch_preserves_addresses(s: Seq<EntryModel>, a: Seq<char>, args: Seq<OscArg>)
    ensures
        dispatch_spec(s, a, args).len() == s.len(),
        forall|i: int| 0 <= i < s.len() ==> (#[trigger] dispatch_spec(s, a, args)[i]).addr
            == s[i].addr,
{
    if spec_has_addr(s, a) {
        lemma_first_exact_exists(s, a);
    }
}

/// Law: a whole update cycle never registers or removes a store, whatever
/// the batch holds; only registration grows the registry.
pub proof fn lemma_update_preserves_addresses(s: Seq<EntryModel>, msgs: Seq<MsgModel>)
    ensures
        dispatch_all(s, msgs).len() == s.len(),
        forall|i: int| 0 <= i < s.len() ==> (#[trigger] dispatch_all(s, msgs)[i]).addr == s[i].addr,
    decreases msgs.len(),
{
    if msgs.len() > 0 {
        lemma_dispatch_preserves_addresses(s, msgs[0].addr, msgs[0].args);
        lemma_update_preserves_addresses(
            dispatch_spec(s, msgs[0].addr, msgs[0].args),
            msgs.drop_first(),
        );
    }
}

/// Law: a message whose payload shape fits no registered kind is a complete
/// no-op, whatever its address: every store keeps its previous value bit for
/// bit.
pub proof fn lemma_malformed_payload_noop(s: Seq<EntryModel>, a: Seq<char>, args: Seq<OscArg>)
    requires
        forall|i: int| 0 <= i < s.len() ==> !args_fit((#[trigger] s[i]).input, args),
    ensures
        dispatch_spec(s, a, args) == s,
{
    if spec_has_addr(s, a) {
        lemma_first_exact_exists(s, a);
    }
    let t = dispatch_spec(s, a, args);
    if spec_has_addr(s, a) && !(lookup(s, a).input is Grid) {
        let f = choose|i: int| is_exact_match(s, a, i);
        assert(0 <= f < s.len());
        assert(!args_fit(s[f].input, args));
        assert(input_decode(s[f].input, args) == s[f].input);
        assert((EntryModel { addr: s[f].addr, input: s[f].input }) == s[f]);
        assert(t =~= s);
    } else if exists|i: int| is_grid_target(s, a, i) {
        let gi = choose|i: int| is_grid_target(s, a, i);
        assert(0 <= gi < s.len());
        assert(!args_fit(s[gi].input, args));
        let g = s[gi].input->Grid_0;
        assert(grid_decode(g, array_suffix(s[gi].addr, a)->Some_0, args) == g);
        assert(InputModel::Grid(g) == s[gi].input);
        assert((EntryModel { addr: s[gi].addr, input: s[gi].input }) == s[gi]);
        assert(t =~= s);
    } else {
        assert(t == s);
    }
}

} // verus!
