//! The brush compiler walk: every step of a topologically sorted execution
//! plan asks its node's compiler for a WGSL contribution, with the node's
//! inputs bound to what upstream nodes emitted; the contributions are
//! concatenated into one shader's declarations and fragment bodies, and the
//! per-dab and uniform fields they declare are collected and laid out.
//!
//! There is no partial compilation: the first step without a compiler, or
//! whose compiler refuses, fails the whole brush.

use vstd::prelude::*;

use crate::brush::wgsl::type_system::{ty_align, WgslType};
use crate::brush::wgsl::CompileError;
use crate::nodegraph::{NodeId, PortRef};
use crate::brush::wgsl::shader::{assemble_shader, shader_text};
use crate::brush::wgsl_compile::ShaderMode;
use crate::text::{chars_of, concat3, owned, push_char, str_eq};

verus! {

/// A field of the per-dab record or of the stroke-constant uniforms, as the
/// generated WGSL struct declares it.
#[derive(Clone, Debug, PartialEq, Eq)]
pub struct FieldDecl {
    pub name: String,
    pub ty: WgslType,
}

/// A field, as values.
pub type FieldView = (Seq<char>, WgslType);

/// The field `f`, as values.
pub open spec fn field_view(f: FieldDecl) -> FieldView {
    (f.name@, f.ty)
}

/// The fields `fs`, as values.
pub open spec fn fields_view(fs: Seq<FieldDecl>) -> Seq<FieldView> {
    fs.map_values(|f: FieldDecl| field_view(f))
}

/// What one node contributes to the compiled shader.
#[derive(Clone, Debug)]
pub struct NodeWgsl {
    /// Module-scope declarations (helper functions, constants).
    pub decls: String,
    /// Lines of the fragment body.
    pub body: String,
    /// Output port name and the WGSL expression downstream nodes
    /// substitute for it.
    pub outputs: Vec<(String, String)>,
    /// Per-dab record fields this node contributes.
    pub dab_fields: Vec<FieldDecl>,
    /// Uniform fields this node contributes.
    pub uniform_fields: Vec<FieldDecl>,
    /// Extra binding declarations a terminal owns.
    pub terminal_bindings: String,
}

/// A node contribution, as values: declarations, body, outputs, dab fields,
/// uniform fields, terminal bindings.
pub type NodeWgslView = (Seq<char>, Seq<char>, Seq<(Seq<char>, Seq<char>)>, Seq<FieldView>, Seq<FieldView>, Seq<char>);

/// Pairs of strings, as values.
pub open spec fn pairs_view(v: Seq<(String, String)>) -> Seq<(Seq<char>, Seq<char>)> {
    v.map_values(|p: (String, String)| (p.0@, p.1@))
}

/// The contribution `n`, as values.
pub open spec fn node_wgsl_view(n: NodeWgsl) -> NodeWgslView {
    (n.decls@, n.body@, pairs_view(n.outputs@), fields_view(n.dab_fields@), fields_view(n.uniform_fields@), n.terminal_bindings@)
}

/// The outcome of a node compilation, as values.
pub open spec fn wgsl_result(r: Result<NodeWgsl, String>) -> Result<NodeWgslView, Seq<char>> {
    match r {
        Ok(n) => Ok(node_wgsl_view(n)),
        Err(e) => Err(e@),
    }
}

/// How a wired input's upstream expression is adapted to the input's range
/// at the wire: unchanged, wrapped in an affine map (the text before and
/// after the expression), or replaced by a constant.
#[derive(Clone, Debug)]
pub enum WireRemap {
    Pass,
    Wrap(String, String),
    Constant(String),
}

/// The expression an input sees of the upstream expression `expr`.
pub open spec fn remapped(expr: Seq<char>, r: WireRemap) -> Seq<char> {
    match r {
        WireRemap::Pass => expr,
        WireRemap::Wrap(before, after) => before@ + expr + after@,
        WireRemap::Constant(c) => c@,
    }
}

/// An input of a plan step: the port, the upstream output that drives it,
/// and the remap at the wire.
#[derive(Clone, Debug)]
pub struct InputSlot {
    pub port_name: String,
    pub source: PortRef,
    pub remap: WireRemap,
}

/// One step of an execution plan: the node, its type, whether it is the
/// terminal, its wired inputs, and its output ports.
#[derive(Clone, Debug)]
pub struct ExecStep {
    pub node_id: NodeId,
    pub type_id: String,
    pub is_terminal: bool,
    pub input_slots: Vec<InputSlot>,
    pub output_ports: Vec<String>,
}

/// A topologically sorted execution plan: upstream steps come first, the
/// terminal last.
#[derive(Clone, Debug)]
pub struct ExecutionPlan {
    pub steps: Vec<ExecStep>,
}

/// An input slot, as values: port, source node, source port, remap.
pub type SlotView = (Seq<char>, NodeId, Seq<char>, WireRemap);

/// A step, as values: node, type, terminal flag, inputs, output ports.
pub type StepView = (NodeId, Seq<char>, bool, Seq<SlotView>, Seq<Seq<char>>);

/// The slot `s`, as values.
pub open spec fn slot_view(s: InputSlot) -> SlotView {
    (s.port_name@, s.source.node, s.source.port@, s.remap)
}

/// The step `s`, as values.
pub open spec fn step_view(s: ExecStep) -> StepView {
    (
        s.node_id,
        s.type_id@,
        s.is_terminal,
        s.input_slots@.map_values(|sl: InputSlot| slot_view(sl)),
        s.output_ports@.map_values(|p: String| p@),
    )
}

/// The steps of `plan`, as values.
pub open spec fn plan_view(plan: ExecutionPlan) -> Seq<StepView> {
    plan.steps@.map_values(|s: ExecStep| step_view(s))
}

/// What a node's compiler is handed: the node, its wired inputs with the
/// expressions bound to them, and its output ports some step consumes.
#[derive(Clone, Debug)]
pub struct CompileCtx {
    pub node_id: NodeId,
    pub inputs: Vec<(String, String)>,
    pub consumed_outputs: Vec<String>,
}

/// A compile context, as values.
pub type CtxView = (NodeId, Seq<(Seq<char>, Seq<char>)>, Seq<Seq<char>>);

/// The context `c`, as values.
pub open spec fn ctx_view(c: CompileCtx) -> CtxView {
    (c.node_id, pairs_view(c.inputs@), c.consumed_outputs@.map_values(|p: String| p@))
}

/// What a node type implements to take part in a compiled brush: its WGSL
/// contribution for the stroke shader, and its fragment body for the preview
/// shader, each a function of what it is handed.
pub trait NodeCompiler {
    /// What `compile_wgsl` gives for a context.
    spec fn compiled(&self, ctx: CtxView) -> Result<NodeWgslView, Seq<char>>;

    /// What `compile_preview_body` gives for a context.
    spec fn preview_compiled(&self, ctx: CtxView) -> Result<NodeWgslView, Seq<char>>;

    /// The node's contribution, or why it cannot compile.
    fn compile_wgsl(&self, ctx: &CompileCtx) -> (r: Result<NodeWgsl, String>)
        ensures
            wgsl_result(r) == self.compiled(ctx_view(*ctx)),
    ;

    /// The node's preview-mode contribution (only its body is used).
    fn compile_preview_body(&self, ctx: &CompileCtx) -> (r: Result<NodeWgsl, String>)
        ensures
            wgsl_result(r) == self.preview_compiled(ctx_view(*ctx)),
    ;
}

/// A node compiler whose contributions are fixed in advance, whatever it is
/// handed: for nodes whose WGSL does not depend on their inputs.
#[derive(Debug)]
pub struct FixedCompiler {
    pub stroke: Result<NodeWgsl, String>,
    pub preview: Result<NodeWgsl, String>,
}

fn clone_pairs(v: &Vec<(String, String)>) -> (r: Vec<(String, String)>)
    ensures
        pairs_view(r@) == pairs_view(v@),
{
    let mut r: Vec<(String, String)> = Vec::new();
    let mut i: usize = 0;
    while i < v.len()
        invariant
            i <= v@.len(),
            pairs_view(r@) == pairs_view(v@.take(i as int)),
        decreases v@.len() - i,
    {
        r.push((v[i].0.clone(), v[i].1.clone()));
        assert(pairs_view(v@.take(i + 1)) =~= pairs_view(v@.take(i as int)).push((v@[i as int].0@, v@[i as int].1@)));
        assert(pairs_view(r@) =~= pairs_view(v@.take(i as int)).push((v@[i as int].0@, v@[i as int].1@)));
        i = i + 1;
    }
    assert(v@.take(v@.len() as int) =~= v@);
    r
}

fn clone_fields(v: &Vec<FieldDecl>) -> (r: Vec<FieldDecl>)
    ensures
        fields_view(r@) == fields_view(v@),
{
    let mut r: Vec<FieldDecl> = Vec::new();
    let mut i: usize = 0;
    while i < v.len()
        invariant
            i <= v@.len(),
            fields_view(r@) == fields_view(v@.take(i as int)),
        decreases v@.len() - i,
    {
        r.push(FieldDecl { name: v[i].name.clone(), ty: v[i].ty });
        assert(fields_view(v@.take(i + 1)) =~= fields_view(v@.take(i as int)).push(field_view(v@[i as int])));
        assert(fields_view(r@) =~= fields_view(v@.take(i as int)).push(field_view(v@[i as int])));
        i = i + 1;
    }
    assert(v@.take(v@.len() as int) =~= v@);
    r
}

fn clone_result(r: &Result<NodeWgsl, String>) -> (c: Result<NodeWgsl, String>)
    ensures
        wgsl_result(c) == wgsl_result(*r),
{
    match r {
        Ok(n) => Ok(
            NodeWgsl {
                decls: n.decls.clone(),
                body: n.body.clone(),
                outputs: clone_pairs(&n.outputs),
                dab_fields: clone_fields(&n.dab_fields),
                uniform_fields: clone_fields(&n.uniform_fields),
                terminal_bindings: n.terminal_bindings.clone(),
            },
        ),
        Err(e) => Err(e.clone()),
    }
}

impl NodeCompiler for FixedCompiler {
    open spec fn compiled(&self, ctx: CtxView) -> Result<NodeWgslView, Seq<char>> {
        wgsl_result(self.stroke)
    }

    open spec fn preview_compiled(&self, ctx: CtxView) -> Result<NodeWgslView, Seq<char>> {
        wgsl_result(self.preview)
    }

    fn compile_wgsl(&self, ctx: &CompileCtx) -> (r: Result<NodeWgsl, String>) {
        clone_result(&self.stroke)
    }

    fn compile_preview_body(&self, ctx: &CompileCtx) -> (r: Result<NodeWgsl, String>) {
        clone_result(&self.preview)
    }
}


/// Emitted output expressions so far: node, port, expression, in the order
/// emitted.
pub type OutputsView = Seq<(NodeId, Seq<char>, Seq<char>)>;

/// The expression emitted last for output `port` of `node`, if any.
pub open spec fn output_expr(outs: OutputsView, node: NodeId, port: Seq<char>) -> Option<Seq<char>>
    decreases outs.len(),
{
    if outs.len() == 0 {
        None
    } else if outs.last().0 == node && outs.last().1 == port {
        Some(outs.last().2)
    } else {
        output_expr(outs.drop_last(), node, port)
    }
}

/// The inputs of `slots` whose source has emitted an expression, each bound
/// to that expression as its wire remaps it, in slot order.
pub open spec fn resolved_inputs(slots: Seq<SlotView>, outs: OutputsView) -> Seq<(Seq<char>, Seq<char>)>
    decreases slots.len(),
{
    if slots.len() == 0 {
        Seq::empty()
    } else {
        let prev = resolved_inputs(slots.drop_last(), outs);
        let sl = slots.last();
        match output_expr(outs, sl.1, sl.2) {
            Some(e) => prev.push((sl.0, remapped(e, sl.3))),
            None => prev,
        }
    }
}

/// Binding the inputs of one more slot `s` extends the bound inputs by its
/// port, bound to the expression its source emitted last as the wire remaps
/// it: unchanged through `Pass`; with `before` in front and `after` behind
/// through `Wrap(before, after)`, so differing from the bare upstream
/// expression whenever the wrapper text is not empty; replaced by the
/// constant through `Constant`. A slot whose source emitted nothing adds no
/// input.
pub proof fn inputs_bind_through_their_remap(slots: Seq<SlotView>, s: SlotView, outs: OutputsView)
    ensures
        output_expr(outs, s.1, s.2) is None ==> resolved_inputs(slots.push(s), outs) == resolved_inputs(slots, outs),
        output_expr(outs, s.1, s.2) is Some ==> ({
            let e = output_expr(outs, s.1, s.2)->Some_0;
            let r = resolved_inputs(slots.push(s), outs);
            &&& r.len() == resolved_inputs(slots, outs).len() + 1
            &&& r.drop_last() == resolved_inputs(slots, outs)
            &&& r.last().0 == s.0
            &&& match s.3 {
                WireRemap::Pass => r.last().1 == e,
                WireRemap::Wrap(before, after) => {
                    &&& r.last().1 == before@ + e + after@
                    &&& r.last().1.take(before@.len() as int) == before@
                    &&& r.last().1.skip((before@.len() + e.len()) as int) == after@
                    &&& (before@.len() > 0 || after@.len() > 0) ==> r.last().1 != e
                },
                WireRemap::Constant(c) => r.last().1 == c@,
            }
        }),
{
    assert(slots.push(s).drop_last() =~= slots);
    if output_expr(outs, s.1, s.2) is Some {
        let e = output_expr(outs, s.1, s.2)->Some_0;
        let r = resolved_inputs(slots.push(s), outs);
        assert(r == resolved_inputs(slots, outs).push((s.0, remapped(e, s.3))));
        assert(r.drop_last() =~= resolved_inputs(slots, outs));
        match s.3 {
            WireRemap::Wrap(before, after) => {
                let w = before@ + e + after@;
                assert(w.take(before@.len() as int) =~= before@);
                assert(w.skip((before@.len() + e.len()) as int) =~= after@);
                assert(w.len() == before@.len() + e.len() + after@.len());
            },
            _ => {},
        }
    }
}

/// Every slot whose source has emitted an expression is handed to the
/// compiler: some bound input names its port, bound to that expression as
/// the slot's wire remaps it.
pub proof fn every_wired_input_is_bound(slots: Seq<SlotView>, outs: OutputsView, k: int)
    requires
        0 <= k < slots.len(),
        output_expr(outs, slots[k].1, slots[k].2) is Some,
    ensures
        exists|j: int|
            0 <= j < resolved_inputs(slots, outs).len() && #[trigger] resolved_inputs(slots, outs)[j] == (
                slots[k].0,
                remapped(output_expr(outs, slots[k].1, slots[k].2)->Some_0, slots[k].3),
            ),
    decreases slots.len(),
{
    let d = slots.drop_last();
    let prev = resolved_inputs(d, outs);
    let r = resolved_inputs(slots, outs);
    if k == slots.len() - 1 {
        assert(r[prev.len() as int] == (slots[k].0, remapped(output_expr(outs, slots[k].1, slots[k].2)->Some_0, slots[k].3)));
    } else {
        assert(d[k] == slots[k]);
        every_wired_input_is_bound(d, outs, k);
        let j = choose|j: int| 0 <= j < prev.len() && #[trigger] prev[j] == (
            d[k].0,
            remapped(output_expr(outs, d[k].1, d[k].2)->Some_0, d[k].3),
        );
        assert(r[j] == prev[j]);
    }
}

/// The output ports of `node` that the slots `slots` read, once per slot.
pub open spec fn consumed_in(slots: Seq<SlotView>, node: NodeId) -> Seq<Seq<char>>
    decreases slots.len(),
{
    if slots.len() == 0 {
        Seq::empty()
    } else if slots.last().1 == node {
        consumed_in(slots.drop_last(), node).push(slots.last().2)
    } else {
        consumed_in(slots.drop_last(), node)
    }
}

/// The output ports of `node` that some step of `steps` reads, in plan
/// order, once per reading slot.
pub open spec fn consumed_outputs(steps: Seq<StepView>, node: NodeId) -> Seq<Seq<char>>
    decreases steps.len(),
{
    if steps.len() == 0 {
        Seq::empty()
    } else {
        consumed_outputs(steps.drop_last(), node) + consumed_in(steps.last().3, node)
    }
}

/// The expression a contribution emits for output `port`: the first listed.
pub open spec fn node_output(outputs: Seq<(Seq<char>, Seq<char>)>, port: Seq<char>) -> Option<Seq<char>>
    decreases outputs.len(),
{
    if outputs.len() == 0 {
        None
    } else if outputs[0].0 == port {
        Some(outputs[0].1)
    } else {
        node_output(outputs.drop_first(), port)
    }
}

/// `outs` with the expressions a contribution emits for the output ports
/// `ports` of `node` appended, in port order (ports it emits none for are
/// skipped).
pub open spec fn registered(outs: OutputsView, node: NodeId, ports: Seq<Seq<char>>, produced: Seq<(Seq<char>, Seq<char>)>) -> OutputsView
    decreases ports.len(),
{
    if ports.len() == 0 {
        outs
    } else {
        let prev = registered(outs, node, ports.drop_last(), produced);
        match node_output(produced, ports.last()) {
            Some(e) => prev.push((node, ports.last(), e)),
            None => prev,
        }
    }
}

/// `acc` with the text `s` appended and ended by a newline (nothing added
/// for empty `s`).
pub open spec fn line_appended(acc: Seq<char>, s: Seq<char>) -> Seq<char> {
    if s.len() == 0 {
        acc
    } else if s.last() == '\n' {
        acc + s
    } else {
        acc + s.push('\n')
    }
}

/// The terminal bindings `acc` with `s` appended on a line of its own.
pub open spec fn bindings_appended(acc: Seq<char>, s: Seq<char>) -> Seq<char> {
    if s.len() == 0 {
        acc
    } else if acc.len() == 0 {
        s
    } else {
        acc.push('\n') + s
    }
}

/// The compiler's state between steps, as values: declarations, shared
/// (non-terminal) body, terminal stroke body, terminal preview body,
/// node-contributed dab fields, uniform fields, terminal bindings, emitted
/// outputs.
pub type WalkState = (Seq<char>, Seq<char>, Seq<char>, Seq<char>, Seq<FieldView>, Seq<FieldView>, Seq<char>, OutputsView);

/// The state after absorbing step `step`'s contribution `r` (and, for the
/// terminal, its preview contribution `p`).
pub open spec fn absorbed(st: WalkState, step: StepView, r: NodeWgslView, p: NodeWgslView) -> WalkState {
    (
        line_appended(st.0, r.0),
        if step.2 { st.1 } else { line_appended(st.1, r.1) },
        if step.2 { line_appended(st.2, r.1) } else { st.2 },
        if step.2 { line_appended(st.3, p.1) } else { st.3 },
        st.4 + r.3,
        st.5 + r.4,
        bindings_appended(st.6, r.5),
        registered(st.7, step.0, step.4, r.2),
    )
}

/// What step `i` of `steps` is handed, given the outputs emitted before it.
pub open spec fn step_ctx(steps: Seq<StepView>, i: int, outs: OutputsView) -> CtxView {
    (steps[i].0, resolved_inputs(steps[i].3, outs), consumed_outputs(steps, steps[i].0))
}

/// The error of a step whose node has no compiler.
pub open spec fn no_evaluator() -> Seq<char> {
    "no evaluator registered"@
}

/// The compiler's state after the first `k` steps of `steps`, each compiled
/// by the compiler at its position in `comps`; or the type and reason of the
/// first step that fails.
pub open spec fn walked<C: NodeCompiler>(steps: Seq<StepView>, comps: Seq<Option<C>>, k: nat) -> Result<
    WalkState,
    (Seq<char>, Seq<char>),
>
    decreases k,
{
    if k == 0 {
        Ok((Seq::empty(), Seq::empty(), Seq::empty(), Seq::empty(), Seq::empty(), Seq::empty(), Seq::empty(), Seq::empty()))
    } else {
        match walked(steps, comps, (k - 1) as nat) {
            Err(e) => Err(e),
            Ok(st) => {
                let i = k - 1;
                let s = steps[i];
                match comps[i] {
                    None => Err((s.1, no_evaluator())),
                    Some(c) => {
                        let ctx = step_ctx(steps, i, st.7);
                        match c.compiled(ctx) {
                            Err(reason) => Err((s.1, reason)),
                            Ok(r) => if s.2 {
                                match c.preview_compiled(ctx) {
                                    Err(reason) => Err((s.1, reason)),
                                    Ok(p) => Ok(absorbed(st, s, r, p)),
                                }
                            } else {
                                Ok(absorbed(st, s, r, r))
                            },
                        }
                    },
                }
            },
        }
    }
}

/// The fields of `fs` of alignment `a`, in order.
pub open spec fn of_alignment(fs: Seq<FieldView>, a: nat) -> Seq<FieldView>
    decreases fs.len(),
{
    if fs.len() == 0 {
        fs
    } else if ty_align(fs.last().1) == a {
        of_alignment(fs.drop_last(), a).push(fs.last())
    } else {
        of_alignment(fs.drop_last(), a)
    }
}

/// `fs` stably sorted by alignment, largest first, so that the std430 layout
/// needs no padding between fields.
pub open spec fn by_alignment(fs: Seq<FieldView>) -> Seq<FieldView> {
    of_alignment(fs, 16) + of_alignment(fs, 8) + of_alignment(fs, 4)
}

/// The fields every per-dab record starts with: the dab centre, the
/// half-extent of its footprint, and the reciprocal of its radius, all in
/// the target texture's pixels.
pub open spec fn intrinsic_header() -> Seq<FieldView> {
    seq![("pos"@, WgslType::Vec2), ("bbox_target_px"@, WgslType::F32), ("inv_radius_target_px"@, WgslType::F32)]
}

/// The fields every per-dab record starts with.
pub fn intrinsic_dab_header() -> (r: Vec<FieldDecl>)
    ensures
        fields_view(r@) == intrinsic_header(),
{
    let mut r: Vec<FieldDecl> = Vec::new();
    r.push(FieldDecl { name: owned("pos"), ty: WgslType::Vec2 });
    r.push(FieldDecl { name: owned("bbox_target_px"), ty: WgslType::F32 });
    r.push(FieldDecl { name: owned("inv_radius_target_px"), ty: WgslType::F32 });
    assert(fields_view(r@) =~= intrinsic_header());
    r
}

/// A brush graph compiled to WGSL: the stroke and preview shaders, and what
/// they are assembled from: module declarations, the fragment body of each
/// variant, the terminal's extra bindings, and the per-dab and uniform
/// layouts in declaration order.
#[derive(Clone, Debug)]
pub struct CompiledBrush {
    pub stroke_wgsl: String,
    pub preview_wgsl: String,
    pub decls: String,
    pub stroke_body: String,
    pub preview_body: String,
    pub terminal_bindings: String,
    pub dab_layout: Vec<FieldDecl>,
    pub uniform_layout: Vec<FieldDecl>,
}

/// Whether `c` is what the final compiler state `st` lays out, its shaders
/// assembled after `prelude`.
pub open spec fn compiled_from(c: CompiledBrush, st: WalkState, prelude: Seq<char>) -> bool {
    &&& c.stroke_wgsl@ == shader_text(
        ShaderMode::Stroke,
        prelude,
        fields_view(c.dab_layout@),
        fields_view(c.uniform_layout@),
        st.0,
        st.1 + st.2,
        st.6,
    )
    &&& c.preview_wgsl@ == shader_text(
        ShaderMode::Preview,
        prelude,
        fields_view(c.dab_layout@),
        fields_view(c.uniform_layout@),
        st.0,
        st.1 + st.3,
        Seq::empty(),
    )
    &&& c.decls@ == st.0
    &&& c.stroke_body@ == st.1 + st.2
    &&& c.preview_body@ == st.1 + st.3
    &&& c.terminal_bindings@ == st.6
    &&& fields_view(c.dab_layout@) == intrinsic_header() + by_alignment(st.4)
    &&& fields_view(c.uniform_layout@) == by_alignment(st.5)
}


/// Emitted outputs, as values.
pub open spec fn outs_view(v: Seq<(NodeId, String, String)>) -> OutputsView {
    v.map_values(|t: (NodeId, String, String)| (t.0, t.1@, t.2@))
}

/// Append `s` to `acc` on lines of its own.
pub(crate) fn append_line(acc: &mut String, s: &str)
    ensures
        final(acc)@ == line_appended(old(acc)@, s@),
{
    let cs = chars_of(s);
    if cs.len() == 0 {
        return;
    }
    acc.append(s);
    if cs[cs.len() - 1] != '\n' {
        push_char(acc, '\n');
        assert(final(acc)@ =~= old(acc)@ + s@.push('\n'));
    }
}

/// Append the terminal bindings `s` to `acc` on a line of its own.
fn append_binding(acc: &mut String, s: &str)
    ensures
        final(acc)@ == bindings_appended(old(acc)@, s@),
{
    let cs = chars_of(s);
    if cs.len() == 0 {
        return;
    }
    let ca = chars_of(acc.as_str());
    if ca.len() > 0 {
        push_char(acc, '\n');
    }
    acc.append(s);
}

/// The expression emitted last for output `port` of `node`.
fn output_expr_of(outs: &Vec<(NodeId, String, String)>, node: NodeId, port: &str) -> (r: Option<String>)
    ensures
        match r {
            Some(e) => output_expr(outs_view(outs@), node, port@) == Some(e@),
            None => output_expr(outs_view(outs@), node, port@) is None,
        },
{
    let ghost v = outs_view(outs@);
    let mut j: usize = outs.len();
    assert(v.take(j as int) =~= v);
    while j > 0
        invariant
            j <= outs@.len(),
            v == outs_view(outs@),
            output_expr(v, node, port@) == output_expr(v.take(j as int), node, port@),
        decreases j,
    {
        let k = j - 1;
        assert(v.take(j as int).last() == v[k as int]);
        assert(v.take(j as int).drop_last() =~= v.take(k as int));
        if outs[k].0 == node && str_eq(outs[k].1.as_str(), port) {
            return Some(outs[k].2.clone());
        }
        j = k;
    }
    None
}

/// The expression the wire remap `r` gives of `expr`.
fn apply_remap(expr: String, r: &WireRemap) -> (e: String)
    ensures
        e@ == remapped(expr@, *r),
{
    match r {
        WireRemap::Pass => expr,
        WireRemap::Wrap(before, after) => concat3(before.as_str(), expr.as_str(), after.as_str()),
        WireRemap::Constant(c) => c.clone(),
    }
}

/// The inputs of `slots` bound to the expressions emitted so far.
fn resolve_inputs(slots: &Vec<InputSlot>, outs: &Vec<(NodeId, String, String)>) -> (r: Vec<(String, String)>)
    ensures
        pairs_view(r@) == resolved_inputs(slots@.map_values(|sl: InputSlot| slot_view(sl)), outs_view(outs@)),
{
    let ghost sv = slots@.map_values(|sl: InputSlot| slot_view(sl));
    let mut r: Vec<(String, String)> = Vec::new();
    let mut i: usize = 0;
    assert(sv.take(0) =~= Seq::<SlotView>::empty());
    assert(pairs_view(r@) =~= Seq::<(Seq<char>, Seq<char>)>::empty());
    while i < slots.len()
        invariant
            i <= slots@.len(),
            sv == slots@.map_values(|sl: InputSlot| slot_view(sl)),
            pairs_view(r@) == resolved_inputs(sv.take(i as int), outs_view(outs@)),
        decreases slots@.len() - i,
    {
        assert(sv.take(i + 1).drop_last() =~= sv.take(i as int));
        assert(sv.take(i + 1).last() == slot_view(slots@[i as int]));
        let sl = &slots[i];
        match output_expr_of(outs, sl.source.node, sl.source.port.as_str()) {
            Some(e) => {
                let bound = apply_remap(e, &sl.remap);
                let ghost before = r@;
                r.push((sl.port_name.clone(), bound));
                assert(pairs_view(r@) =~= pairs_view(before).push((sl.port_name@, bound@)));
            },
            None => {},
        }
        i = i + 1;
    }
    assert(sv.take(sv.len() as int) =~= sv);
    r
}

/// The output ports of `node` that some step of `plan` reads.
fn consumed_outputs_of(plan: &ExecutionPlan, node: NodeId) -> (r: Vec<String>)
    ensures
        r@.map_values(|p: String| p@) == consumed_outputs(plan_view(*plan), node),
{
    let ghost pv = plan_view(*plan);
    let mut r: Vec<String> = Vec::new();
    let mut i: usize = 0;
    assert(pv.take(0) =~= Seq::<StepView>::empty());
    assert(r@.map_values(|p: String| p@) =~= Seq::<Seq<char>>::empty());
    while i < plan.steps.len()
        invariant
            i <= plan.steps@.len(),
            pv == plan_view(*plan),
            r@.map_values(|p: String| p@) == consumed_outputs(pv.take(i as int), node),
        decreases plan.steps@.len() - i,
    {
        let step = &plan.steps[i];
        let ghost sv = pv[i as int].3;
        assert(sv == step.input_slots@.map_values(|sl: InputSlot| slot_view(sl)));
        let ghost base = r@.map_values(|p: String| p@);
        let mut j: usize = 0;
        assert(sv.take(0) =~= Seq::<SlotView>::empty());
        assert(base + consumed_in(sv.take(0), node) =~= base);
        while j < step.input_slots.len()
            invariant
                j <= step.input_slots@.len(),
                sv == step.input_slots@.map_values(|sl: InputSlot| slot_view(sl)),
                r@.map_values(|p: String| p@) == base + consumed_in(sv.take(j as int), node),
            decreases step.input_slots@.len() - j,
        {
            assert(sv.take(j + 1).drop_last() =~= sv.take(j as int));
            assert(sv.take(j + 1).last() == slot_view(step.input_slots@[j as int]));
            if step.input_slots[j].source.node == node {
                let ghost before = r@;
                r.push(step.input_slots[j].source.port.clone());
                assert(r@.map_values(|p: String| p@) =~= before.map_values(|p: String| p@).push(
                    step.input_slots@[j as int].source.port@,
                ));
            }
            j = j + 1;
        }
        assert(sv.take(sv.len() as int) =~= sv);
        assert(pv.take(i + 1).drop_last() =~= pv.take(i as int));
        assert(pv.take(i + 1).last() == pv[i as int]);
        i = i + 1;
    }
    assert(pv.take(pv.len() as int) =~= pv);
    r
}

/// The expression a contribution lists first for output `port`.
fn node_output_of(outputs: &Vec<(String, String)>, port: &str) -> (r: Option<String>)
    ensures
        match r {
            Some(e) => node_output(pairs_view(outputs@), port@) == Some(e@),
            None => node_output(pairs_view(outputs@), port@) is None,
        },
{
    let ghost v = pairs_view(outputs@);
    let mut i: usize = 0;
    assert(v.skip(0) =~= v);
    while i < outputs.len()
        invariant
            i <= outputs@.len(),
            v == pairs_view(outputs@),
            node_output(v, port@) == node_output(v.skip(i as int), port@),
        decreases outputs@.len() - i,
    {
        assert(v.skip(i as int)[0] == v[i as int]);
        if str_eq(outputs[i].0.as_str(), port) {
            return Some(outputs[i].1.clone());
        }
        assert(v.skip(i as int).drop_first() =~= v.skip(i + 1));
        i = i + 1;
    }
    assert(v.skip(i as int).len() == 0);
    None
}

/// Record the expressions `produced` emits for the output ports `ports` of
/// `node`.
fn register_outputs(outs: &mut Vec<(NodeId, String, String)>, node: NodeId, ports: &Vec<String>, produced: &Vec<(String, String)>)
    ensures
        outs_view(final(outs)@) == registered(outs_view(old(outs)@), node, ports@.map_values(|p: String| p@), pairs_view(produced@)),
{
    let ghost pv = ports@.map_values(|p: String| p@);
    let ghost start = outs_view(outs@);
    let mut i: usize = 0;
    assert(pv.take(0) =~= Seq::<Seq<char>>::empty());
    while i < ports.len()
        invariant
            i <= ports@.len(),
            pv == ports@.map_values(|p: String| p@),
            start == outs_view(old(outs)@),
            outs_view(outs@) == registered(start, node, pv.take(i as int), pairs_view(produced@)),
        decreases ports@.len() - i,
    {
        assert(pv.take(i + 1).drop_last() =~= pv.take(i as int));
        assert(pv.take(i + 1).last() == ports@[i as int]@);
        match node_output_of(produced, ports[i].as_str()) {
            Some(e) => {
                let ghost before = outs@;
                outs.push((node, ports[i].clone(), e));
                assert(outs_view(outs@) =~= outs_view(before).push((node, ports@[i as int]@, e@)));
            },
            None => {},
        }
        i = i + 1;
    }
    assert(pv.take(pv.len() as int) =~= pv);
}

/// Append the fields of `fs` of alignment `a` to `out`, in order.
fn push_of_alignment(out: &mut Vec<FieldDecl>, fs: &Vec<FieldDecl>, a: usize)
    ensures
        fields_view(final(out)@) == fields_view(old(out)@) + of_alignment(fields_view(fs@), a as nat),
{
    let ghost fv = fields_view(fs@);
    let ghost start = fields_view(out@);
    let mut i: usize = 0;
    assert(fv.take(0) =~= Seq::<FieldView>::empty());
    assert(start + of_alignment(fv.take(0), a as nat) =~= start);
    while i < fs.len()
        invariant
            i <= fs@.len(),
            fv == fields_view(fs@),
            start == fields_view(old(out)@),
            fields_view(out@) == start + of_alignment(fv.take(i as int), a as nat),
        decreases fs@.len() - i,
    {
        assert(fv.take(i + 1).drop_last() =~= fv.take(i as int));
        assert(fv.take(i + 1).last() == field_view(fs@[i as int]));
        if fs[i].ty.align() == a {
            let ghost before = out@;
            out.push(FieldDecl { name: fs[i].name.clone(), ty: fs[i].ty });
            assert(fields_view(out@) =~= fields_view(before).push(field_view(fs@[i as int])));
            assert(start + of_alignment(fv.take(i as int), a as nat).push(fv[i as int]) =~= (start + of_alignment(
                fv.take(i as int),
                a as nat,
            )).push(fv[i as int]));
        }
        i = i + 1;
    }
    assert(fv.take(fv.len() as int) =~= fv);
}


/// Compile a brush's execution plan into WGSL, the compiler for step `i`
/// being `compilers[i]` (none where the node's type has no compiler), each
/// shader variant assembled after `prelude` (the brush shape and prelude
/// sources every compiled brush shares).
///
/// An empty plan has no terminal. Otherwise each step is handed its node,
/// its inputs bound to the (remapped) expressions upstream steps emitted,
/// and its consumed output ports; the first step without a compiler, or
/// whose compiler refuses (for the terminal, in either mode), fails the
/// whole compilation. Declarations are concatenated into module scope;
/// non-terminal bodies into the body both shaders share, the terminal's
/// stroke and preview bodies after it; the per-dab fields follow the
/// intrinsic header, and they and the uniform fields are stably sorted by
/// alignment, largest first.
pub fn compile_brush_to_wgsl<C: NodeCompiler>(plan: &ExecutionPlan, compilers: &Vec<Option<C>>, prelude: &str) -> (r: Result<
    CompiledBrush,
    CompileError,
>)
    requires
        compilers@.len() == plan.steps@.len(),
    ensures
        plan.steps@.len() == 0 ==> r matches Err(CompileError::NoTerminal),
        plan.steps@.len() > 0 ==> match walked(plan_view(*plan), compilers@, plan.steps@.len()) {
            Err(e) => r matches Err(CompileError::NodeNotCompilable { type_id, reason }) && type_id@ == e.0 && reason@ == e.1,
            Ok(st) => r matches Ok(c) && compiled_from(c, st, prelude@),
        },
{
    if plan.steps.len() == 0 {
        return Err(CompileError::NoTerminal);
    }
    let ghost pv = plan_view(*plan);
    let mut decls = String::new();
    let mut shared = String::new();
    let mut stroke_term = String::new();
    let mut preview_term = String::new();
    let mut dab: Vec<FieldDecl> = Vec::new();
    let mut unif: Vec<FieldDecl> = Vec::new();
    let mut bindings = String::new();
    let mut outs: Vec<(NodeId, String, String)> = Vec::new();
    let mut i: usize = 0;
    proof {
        assert(fields_view(dab@) =~= Seq::<FieldView>::empty());
        assert(fields_view(unif@) =~= Seq::<FieldView>::empty());
        assert(outs_view(outs@) =~= Seq::<(NodeId, Seq<char>, Seq<char>)>::empty());
    }
    while i < plan.steps.len()
        invariant
            i <= plan.steps@.len(),
            compilers@.len() == plan.steps@.len(),
            pv == plan_view(*plan),
            walked(pv, compilers@, i as nat) == Ok::<WalkState, (Seq<char>, Seq<char>)>(
                (decls@, shared@, stroke_term@, preview_term@, fields_view(dab@), fields_view(unif@), bindings@, outs_view(outs@)),
            ),
        decreases plan.steps@.len() - i,
    {
        let step = &plan.steps[i];
        assert(pv[i as int] == step_view(*step));
        let ghost st = (decls@, shared@, stroke_term@, preview_term@, fields_view(dab@), fields_view(unif@), bindings@, outs_view(outs@));
        let c = match &compilers[i] {
            Some(c) => c,
            None => {
                proof {
                    lemma_walk_err(pv, compilers@, (i + 1) as nat, plan.steps@.len());
                }
                return Err(CompileError::NodeNotCompilable { type_id: step.type_id.clone(), reason: owned("no evaluator registered") });
            },
        };
        let ctx = CompileCtx {
            node_id: step.node_id,
            inputs: resolve_inputs(&step.input_slots, &outs),
            consumed_outputs: consumed_outputs_of(plan, step.node_id),
        };
        assert(ctx_view(ctx) == step_ctx(pv, i as int, st.7));
        let result = match c.compile_wgsl(&ctx) {
            Ok(n) => n,
            Err(reason) => {
                proof {
                    lemma_walk_err(pv, compilers@, (i + 1) as nat, plan.steps@.len());
                }
                return Err(CompileError::NodeNotCompilable { type_id: step.type_id.clone(), reason });
            },
        };
        append_line(&mut decls, result.decls.as_str());
        if step.is_terminal {
            let preview = match c.compile_preview_body(&ctx) {
                Ok(p) => p,
                Err(reason) => {
                    proof {
                        lemma_walk_err(pv, compilers@, (i + 1) as nat, plan.steps@.len());
                    }
                    return Err(CompileError::NodeNotCompilable { type_id: step.type_id.clone(), reason });
                },
            };
            append_line(&mut stroke_term, result.body.as_str());
            append_line(&mut preview_term, preview.body.as_str());
        } else {
            append_line(&mut shared, result.body.as_str());
        }
        let ghost dab0 = fields_view(dab@);
        let ghost unif0 = fields_view(unif@);
        let mut k: usize = 0;
        while k < result.dab_fields.len()
            invariant
                k <= result.dab_fields@.len(),
                fields_view(dab@) == dab0 + fields_view(result.dab_fields@.take(k as int)),
            decreases result.dab_fields@.len() - k,
        {
            let ghost before = dab@;
            dab.push(FieldDecl { name: result.dab_fields[k].name.clone(), ty: result.dab_fields[k].ty });
            assert(fields_view(result.dab_fields@.take(k + 1)) =~= fields_view(result.dab_fields@.take(k as int)).push(
                field_view(result.dab_fields@[k as int]),
            ));
            assert(fields_view(dab@) =~= fields_view(before).push(field_view(result.dab_fields@[k as int])));
            k = k + 1;
        }
        assert(result.dab_fields@.take(result.dab_fields@.len() as int) =~= result.dab_fields@);
        let mut k: usize = 0;
        while k < result.uniform_fields.len()
            invariant
                k <= result.uniform_fields@.len(),
                fields_view(unif@) == unif0 + fields_view(result.uniform_fields@.take(k as int)),
            decreases result.uniform_fields@.len() - k,
        {
            let ghost before = unif@;
            unif.push(FieldDecl { name: result.uniform_fields[k].name.clone(), ty: result.uniform_fields[k].ty });
            assert(fields_view(result.uniform_fields@.take(k + 1)) =~= fields_view(result.uniform_fields@.take(k as int)).push(
                field_view(result.uniform_fields@[k as int]),
            ));
            assert(fields_view(unif@) =~= fields_view(before).push(field_view(result.uniform_fields@[k as int])));
            k = k + 1;
        }
        assert(result.uniform_fields@.take(result.uniform_fields@.len() as int) =~= result.uniform_fields@);
        append_binding(&mut bindings, result.terminal_bindings.as_str());
        register_outputs(&mut outs, step.node_id, &step.output_ports, &result.outputs);
        i = i + 1;
    }
    let ghost st = (decls@, shared@, stroke_term@, preview_term@, fields_view(dab@), fields_view(unif@), bindings@, outs_view(outs@));
    let mut stroke_body = shared.clone();
    stroke_body.append(stroke_term.as_str());
    let mut preview_body = shared;
    preview_body.append(preview_term.as_str());
    let mut dab_layout = intrinsic_dab_header();
    push_of_alignment(&mut dab_layout, &dab, 16);
    push_of_alignment(&mut dab_layout, &dab, 8);
    push_of_alignment(&mut dab_layout, &dab, 4);
    let mut uniform_layout: Vec<FieldDecl> = Vec::new();
    push_of_alignment(&mut uniform_layout, &unif, 16);
    push_of_alignment(&mut uniform_layout, &unif, 8);
    push_of_alignment(&mut uniform_layout, &unif, 4);
    proof {
        assert(fields_view(Seq::<FieldDecl>::empty()) =~= Seq::<FieldView>::empty());
        let e: Seq<FieldView> = Seq::empty();
        assert(e + of_alignment(st.5, 16) =~= of_alignment(st.5, 16));
    }
    let stroke_wgsl = assemble_shader(
        ShaderMode::Stroke,
        prelude,
        &dab_layout,
        &uniform_layout,
        decls.as_str(),
        stroke_body.as_str(),
        bindings.as_str(),
    );
    let preview_wgsl = assemble_shader(
        ShaderMode::Preview,
        prelude,
        &dab_layout,
        &uniform_layout,
        decls.as_str(),
        preview_body.as_str(),
        "",
    );
    let c = CompiledBrush {
        stroke_wgsl,
        preview_wgsl,
        decls,
        stroke_body,
        preview_body,
        terminal_bindings: bindings,
        dab_layout,
        uniform_layout,
    };
    proof {
        assert(fields_view(c.dab_layout@) =~= intrinsic_header() + by_alignment(st.4));
        assert(fields_view(c.uniform_layout@) =~= by_alignment(st.5));
    }
    Ok(c)
}

/// A failure after the first `k` steps is the failure of the whole walk.
proof fn lemma_walk_err<C: NodeCompiler>(steps: Seq<StepView>, comps: Seq<Option<C>>, k: nat, n: nat)
    requires
        k <= n,
        walked(steps, comps, k) is Err,
    ensures
        walked(steps, comps, n) == walked(steps, comps, k),
    decreases n - k,
{
    if k < n {
        lemma_walk_err(steps, comps, k, (n - 1) as nat);
    }
}

} // verus!
