//! Document assembly: turns one recipe and a display configuration into the
//! ordered stream of sink directives (emphasis, justification, written lines,
//! QR payload, cut) that the output device consumes, together with the
//! informational notes that steps with nested sub-recipes surface.

use vstd::prelude::*;
use crate::model::{
    TandoorIngredient, TandoorRecipe, TandoorStep, servings_spec, duration_spec, instruction_spec,
    note_spec, opt_str_view,
};
use crate::aggregate::{aggregate_spec, filter_included};
use crate::ingredient::pretty_print_spec;
use crate::words::str_views;
use crate::wrap::{format_text, format_text_spec, ascii_of};
use crate::numfmt::{dec_str, u64_dec_string};

verus! {

/// Justification of subsequently written lines.
#[derive(Clone, Copy, PartialEq, Eq)]
pub enum JustifyMode {
    Left,
    Center,
    Right,
}

/// How ingredient lists appear in the printout: an aggregated summary block,
/// per-step blocks, both, or neither.
#[derive(Clone, Copy, PartialEq, Eq)]
pub enum IngredientDisplay {
    Both,
    Summary,
    Step,
    Omit,
}

/// What ends the printout: nothing, a pause for a manual tear, a partial cut,
/// or a full cut.
#[derive(Clone, Copy, PartialEq, Eq)]
pub enum CutMode {
    NoCut,
    Pause,
    Partial,
    Full,
}

/// One directive for the output sink, in the order the sink must honour them.
#[derive(PartialEq, Eq)]
pub enum Directive {
    Bold(bool),
    Underline(bool),
    DoubleSize(bool),
    Align(JustifyMode),
    WriteLn(String),
    Feed,
    QrCode(String),
    PartialCut,
    FullCut,
    Pause,
    Print,
}

/// The mathematical image of a directive: written text as a character
/// sequence.
pub enum DirectiveView {
    Bold(bool),
    Underline(bool),
    DoubleSize(bool),
    Align(JustifyMode),
    WriteLn(Seq<char>),
    Feed,
    QrCode(Seq<char>),
    PartialCut,
    FullCut,
    Pause,
    Print,
}

impl View for Directive {
    type V = DirectiveView;

    open spec fn view(&self) -> DirectiveView {
        match self {
            Directive::Bold(b) => DirectiveView::Bold(*b),
            Directive::Underline(b) => DirectiveView::Underline(*b),
            Directive::DoubleSize(b) => DirectiveView::DoubleSize(*b),
            Directive::Align(m) => DirectiveView::Align(*m),
            Directive::WriteLn(s) => DirectiveView::WriteLn(s@),
            Directive::Feed => DirectiveView::Feed,
            Directive::QrCode(s) => DirectiveView::QrCode(s@),
            Directive::PartialCut => DirectiveView::PartialCut,
            Directive::FullCut => DirectiveView::FullCut,
            Directive::Pause => DirectiveView::Pause,
            Directive::Print => DirectiveView::Print,
        }
    }
}

/// The views of a directive sequence.
pub open spec fn dir_views(v: Seq<Directive>) -> Seq<DirectiveView> {
    v.map_values(|d: Directive| d@)
}

/// The rendering configuration: the service's base link (for the QR payload),
/// the ingredient display mode, the stats and QR toggles, the cut mode, and
/// the paper width in characters (zero leaves line breaking to the sink).
pub struct RenderConfig {
    pub instance: String,
    pub ingredient_display: IngredientDisplay,
    pub stats: bool,
    pub qr: bool,
    pub cut_mode: CutMode,
    pub columns: u32,
}

/// Whether the aggregated summary block appears.
pub open spec fn shows_summary(d: IngredientDisplay) -> bool {
    d is Both || d is Summary
}

/// Whether per-step ingredient lines appear.
pub open spec fn shows_step(d: IngredientDisplay) -> bool {
    d is Both || d is Step
}

/// The title block: left justification, then the recipe name emphasized at
/// double size, wrapped to half the paper width.
pub open spec fn title_spec(r: TandoorRecipe, cfg: RenderConfig) -> Seq<DirectiveView> {
    seq![
        DirectiveView::Align(JustifyMode::Left),
        DirectiveView::Bold(true),
        DirectiveView::DoubleSize(true),
        DirectiveView::WriteLn(format_text_spec(ascii_of(r.name@), (cfg.columns / 2) as nat)),
        DirectiveView::DoubleSize(false),
        DirectiveView::Bold(false),
        DirectiveView::Feed,
    ]
}

/// The stats block: the servings line then the duration line, only when the
/// stats toggle is on.
pub open spec fn stats_spec(r: TandoorRecipe, cfg: RenderConfig) -> Seq<DirectiveView> {
    if cfg.stats {
        seq![
            DirectiveView::WriteLn(servings_spec(r)),
            DirectiveView::WriteLn(duration_spec(r)),
        ]
    } else {
        Seq::empty()
    }
}

/// One written line per ingredient, each formatted and wrapped to `w`.
pub open spec fn ingredient_lines(list: Seq<TandoorIngredient>, w: nat) -> Seq<DirectiveView>
    decreases list.len(),
{
    if list.len() == 0 {
        Seq::empty()
    } else {
        seq![DirectiveView::WriteLn(format_text_spec(ascii_of(pretty_print_spec(list[0])), w))]
            + ingredient_lines(list.drop_first(), w)
    }
}

/// The aggregated ingredient block: an emphasized, underlined heading, every
/// aggregated included ingredient, and a feed; only in summary modes.
pub open spec fn summary_spec(r: TandoorRecipe, cfg: RenderConfig) -> Seq<DirectiveView> {
    if shows_summary(cfg.ingredient_display) {
        seq![
            DirectiveView::Bold(true),
            DirectiveView::Underline(true),
            DirectiveView::WriteLn("Ingredients"@),
            DirectiveView::Bold(false),
            DirectiveView::Underline(false),
        ] + ingredient_lines(aggregate_spec(r), cfg.columns as nat) + seq![DirectiveView::Feed]
    } else {
        Seq::empty()
    }
}

/// The heading of the `n`-th step (1-based), suffixed with the step's display
/// name when it has one.
pub open spec fn step_heading(s: TandoorStep, n: nat) -> Seq<char> {
    "Step "@ + dec_str(n) + if s.name@.len() > 0 {
        ": "@ + s.name@
    } else {
        Seq::<char>::empty()
    }
}

/// One step's block: its heading emphasized and underlined; a right-justified
/// time line when the step's time is positive; its included ingredients in
/// per-step modes; the resolved instruction wrapped to the paper width; a
/// separating feed.
pub open spec fn step_spec(s: TandoorStep, n: nat, cfg: RenderConfig) -> Seq<DirectiveView> {
    seq![
        DirectiveView::Bold(true),
        DirectiveView::Underline(true),
        DirectiveView::WriteLn(step_heading(s, n)),
        DirectiveView::Bold(false),
        DirectiveView::Underline(false),
    ] + (if s.time != 0 {
        seq![
            DirectiveView::Align(JustifyMode::Right),
            DirectiveView::WriteLn("("@ + dec_str(s.time as nat) + " min)"@),
            DirectiveView::Align(JustifyMode::Left),
        ]
    } else {
        Seq::<DirectiveView>::empty()
    }) + (if shows_step(cfg.ingredient_display) {
        ingredient_lines(filter_included(s.ingredients@), cfg.columns as nat)
    } else {
        Seq::<DirectiveView>::empty()
    }) + seq![
        DirectiveView::WriteLn(format_text_spec(ascii_of(instruction_spec(s)), cfg.columns as nat)),
        DirectiveView::Feed,
    ]
}

/// All steps' blocks, numbered from `n` upward.
pub open spec fn steps_spec(steps: Seq<TandoorStep>, n: nat, cfg: RenderConfig) -> Seq<
    DirectiveView,
>
    decreases steps.len(),
{
    if steps.len() == 0 {
        Seq::empty()
    } else {
        step_spec(steps[0], n, cfg) + steps_spec(steps.drop_first(), n + 1, cfg)
    }
}

/// The QR block: a centered QR code whose payload links to the recipe by id,
/// only when the QR toggle is on.
pub open spec fn qr_spec(r: TandoorRecipe, cfg: RenderConfig) -> Seq<DirectiveView> {
    if cfg.qr {
        seq![
            DirectiveView::Align(JustifyMode::Center),
            DirectiveView::QrCode(cfg.instance@ + "/recipe/"@ + dec_str(r.id as nat)),
            DirectiveView::Align(JustifyMode::Left),
        ]
    } else {
        Seq::empty()
    }
}

/// The closing cut directive, from the closed set of cut modes.
pub open spec fn cut_spec(cfg: RenderConfig) -> Seq<DirectiveView> {
    match cfg.cut_mode {
        CutMode::NoCut => Seq::empty(),
        CutMode::Pause => seq![DirectiveView::Pause],
        CutMode::Partial => seq![DirectiveView::PartialCut],
        CutMode::Full => seq![DirectiveView::FullCut],
    }
}

/// The tail of the document: the QR block, a feed, the cut directive and the
/// final print commit.
pub open spec fn tail_spec(r: TandoorRecipe, cfg: RenderConfig) -> Seq<DirectiveView> {
    qr_spec(r, cfg) + seq![DirectiveView::Feed] + cut_spec(cfg) + seq![DirectiveView::Print]
}

/// The whole directive stream of one recipe.
pub open spec fn render_spec(r: TandoorRecipe, cfg: RenderConfig) -> Seq<DirectiveView> {
    title_spec(r, cfg) + stats_spec(r, cfg) + summary_spec(r, cfg) + steps_spec(r.steps@, 1, cfg)
        + tail_spec(r, cfg)
}

/// The informational notes the steps surface, in step order.
pub open spec fn notes_spec(steps: Seq<TandoorStep>) -> Seq<Seq<char>>
    decreases steps.len(),
{
    if steps.len() == 0 {
        Seq::empty()
    } else {
        (match note_spec(steps[0]) {
            Option::Some(n) => seq![n],
            Option::None => Seq::<Seq<char>>::empty(),
        }) + notes_spec(steps.drop_first())
    }
}

/// Keeps exactly the ingredients that name a food, in order.
fn filter_included_vec(v: &Vec<TandoorIngredient>) -> (r: Vec<TandoorIngredient>)
    ensures
        r@ == filter_included(v@),
{
    let mut out: Vec<TandoorIngredient> = Vec::new();
    proof {
        assert(v@.skip(0) =~= v@);
        assert(out@ + filter_included(v@) =~= filter_included(v@));
    }
    let mut j: usize = 0;
    while j < v.len()
        invariant
            0 <= j <= v@.len(),
            filter_included(v@) == out@ + filter_included(v@.skip(j as int)),
        decreases v@.len() - j,
    {
        proof {
            assert(v@.skip(j as int)[0] == v@[j as int]);
            assert(v@.skip(j as int).drop_first() =~= v@.skip(j + 1));
        }
        let item = &v[j];
        if item.included() {
            proof {
                assert(out@ + (seq![v@[j as int]] + filter_included(v@.skip(j + 1))) =~= (out@
                    + seq![v@[j as int]]) + filter_included(v@.skip(j + 1)));
                assert(out@.push(v@[j as int]) =~= out@ + seq![v@[j as int]]);
            }
            out.push(item.clone());
        }
        j = j + 1;
    }
    proof {
        assert(v@.skip(j as int).len() == 0);
        assert(filter_included(v@.skip(j as int)) =~= Seq::<TandoorIngredient>::empty());
        assert(out@ + Seq::<TandoorIngredient>::empty() =~= out@);
    }
    out
}

/// One written line per ingredient of `list`, wrapped to `w` columns.
fn lines_block(list: &Vec<TandoorIngredient>, w: usize) -> (v: Vec<Directive>)
    ensures
        dir_views(v@) == ingredient_lines(list@, w as nat),
{
    let mut v: Vec<Directive> = Vec::new();
    proof {
        assert(list@.skip(0) =~= list@);
        assert(dir_views(v@) =~= Seq::<DirectiveView>::empty());
        assert(dir_views(v@) + ingredient_lines(list@, w as nat) =~= ingredient_lines(
            list@,
            w as nat,
        ));
    }
    let mut j: usize = 0;
    while j < list.len()
        invariant
            0 <= j <= list@.len(),
            ingredient_lines(list@, w as nat) == dir_views(v@) + ingredient_lines(
                list@.skip(j as int),
                w as nat,
            ),
        decreases list@.len() - j,
    {
        proof {
            assert(list@.skip(j as int)[0] == list@[j as int]);
            assert(list@.skip(j as int).drop_first() =~= list@.skip(j + 1));
        }
        let line = list[j].pretty_print();
        let wrapped = format_text(line.as_str(), w);
        let d = Directive::WriteLn(wrapped);
        proof {
            assert(dir_views(v@.push(d)) =~= dir_views(v@).push(d@));
            assert(dir_views(v@) + (seq![d@] + ingredient_lines(list@.skip(j + 1), w as nat)) =~= (
            dir_views(v@) + seq![d@]) + ingredient_lines(list@.skip(j + 1), w as nat));
            assert(dir_views(v@).push(d@) =~= dir_views(v@) + seq![d@]);
        }
        v.push(d);
        j = j + 1;
    }
    proof {
        assert(list@.skip(j as int).len() == 0);
        assert(ingredient_lines(list@.skip(j as int), w as nat) =~= Seq::<DirectiveView>::empty());
        assert(dir_views(v@) + Seq::<DirectiveView>::empty() =~= dir_views(v@));
    }
    v
}

/// The title block.
fn title_block(r: &TandoorRecipe, cfg: &RenderConfig) -> (v: Vec<Directive>)
    ensures
        dir_views(v@) == title_spec(*r, *cfg),
{
    let mut v: Vec<Directive> = Vec::new();
    v.push(Directive::Align(JustifyMode::Left));
    v.push(Directive::Bold(true));
    v.push(Directive::DoubleSize(true));
    let t = format_text(r.name.as_str(), (cfg.columns / 2) as usize);
    v.push(Directive::WriteLn(t));
    v.push(Directive::DoubleSize(false));
    v.push(Directive::Bold(false));
    v.push(Directive::Feed);
    proof {
        assert(dir_views(v@) =~= title_spec(*r, *cfg));
    }
    v
}

/// The stats block.
fn stats_block(r: &TandoorRecipe, cfg: &RenderConfig) -> (v: Vec<Directive>)
    ensures
        dir_views(v@) == stats_spec(*r, *cfg),
{
    let mut v: Vec<Directive> = Vec::new();
    if cfg.stats {
        v.push(Directive::WriteLn(r.get_servings()));
        v.push(Directive::WriteLn(r.get_duration()));
    }
    proof {
        assert(dir_views(v@) =~= stats_spec(*r, *cfg));
    }
    v
}

/// The aggregated ingredient summary block.
fn summary_block(r: &TandoorRecipe, cfg: &RenderConfig) -> (v: Vec<Directive>)
    ensures
        dir_views(v@) == summary_spec(*r, *cfg),
{
    let show = match cfg.ingredient_display {
        IngredientDisplay::Both => true,
        IngredientDisplay::Summary => true,
        IngredientDisplay::Step => false,
        IngredientDisplay::Omit => false,
    };
    let mut v: Vec<Directive> = Vec::new();
    if !show {
        proof {
            assert(dir_views(v@) =~= summary_spec(*r, *cfg));
        }
        return v;
    }
    v.push(Directive::Bold(true));
    v.push(Directive::Underline(true));
    v.push(Directive::WriteLn("Ingredients".to_owned()));
    v.push(Directive::Bold(false));
    v.push(Directive::Underline(false));
    let ghost head = dir_views(v@);
    let ags = r.get_all_ingredients();
    let mut lines = lines_block(&ags, cfg.columns as usize);
    proof {
        assert(dir_views(v@ + lines@) =~= dir_views(v@) + dir_views(lines@));
    }
    v.append(&mut lines);
    v.push(Directive::Feed);
    proof {
        assert(dir_views(v@) =~= summary_spec(*r, *cfg));
    }
    v
}

/// One step's block, numbered `n`, together with the note the step surfaces.
fn step_block(s: &TandoorStep, n: usize, cfg: &RenderConfig) -> (r: (Vec<Directive>, Option<
    String,
>))
    ensures
        dir_views(r.0@) == step_spec(*s, n as nat, *cfg),
        opt_str_view(r.1) == note_spec(*s),
{
    let mut v: Vec<Directive> = Vec::new();
    let mut heading = String::new();
    heading.append("Step ");
    let num = u64_dec_string(n as u64);
    heading.append(num.as_str());
    if !s.name.as_str().is_empty() {
        heading.append(": ");
        heading.append(s.name.as_str());
    }
    proof {
        assert(heading@ =~= step_heading(*s, n as nat));
    }
    v.push(Directive::Bold(true));
    v.push(Directive::Underline(true));
    v.push(Directive::WriteLn(heading));
    v.push(Directive::Bold(false));
    v.push(Directive::Underline(false));
    if s.time != 0 {
        v.push(Directive::Align(JustifyMode::Right));
        let mut tl = String::new();
        tl.append("(");
        let tn = u64_dec_string(s.time as u64);
        tl.append(tn.as_str());
        tl.append(" min)");
        proof {
            assert(tl@ =~= "("@ + dec_str(s.time as nat) + " min)"@);
        }
        v.push(Directive::WriteLn(tl));
        v.push(Directive::Align(JustifyMode::Left));
    }
    let show = match cfg.ingredient_display {
        IngredientDisplay::Both => true,
        IngredientDisplay::Summary => false,
        IngredientDisplay::Step => true,
        IngredientDisplay::Omit => false,
    };
    if show {
        let fi = filter_included_vec(&s.ingredients);
        let mut lb = lines_block(&fi, cfg.columns as usize);
        proof {
            assert(dir_views(v@ + lb@) =~= dir_views(v@) + dir_views(lb@));
        }
        v.append(&mut lb);
    }
    let (text, note) = s.instruction();
    let wrapped = format_text(text.as_str(), cfg.columns as usize);
    v.push(Directive::WriteLn(wrapped));
    v.push(Directive::Feed);
    proof {
        assert(dir_views(v@) =~= step_spec(*s, n as nat, *cfg));
    }
    (v, note)
}

/// Renders one recipe into the ordered directive stream the output sink
/// consumes, together with the informational notes the steps surface, in step
/// order.
pub fn render(recipe: &TandoorRecipe, cfg: &RenderConfig) -> (r: (Vec<Directive>, Vec<String>))
    ensures
        dir_views(r.0@) == render_spec(*recipe, *cfg),
        str_views(r.1@) == notes_spec(recipe.steps@),
{
    let ghost pre = title_spec(*recipe, *cfg) + stats_spec(*recipe, *cfg) + summary_spec(
        *recipe,
        *cfg,
    );
    let mut out = title_block(recipe, cfg);
    let mut sb = stats_block(recipe, cfg);
    proof {
        assert(dir_views(out@ + sb@) =~= dir_views(out@) + dir_views(sb@));
    }
    out.append(&mut sb);
    let mut sm = summary_block(recipe, cfg);
    proof {
        assert(dir_views(out@ + sm@) =~= dir_views(out@) + dir_views(sm@));
    }
    out.append(&mut sm);
    proof {
        assert(dir_views(out@) =~= pre);
    }
    let mut notes: Vec<String> = Vec::new();
    let ghost steps = recipe.steps@;
    proof {
        assert(steps.skip(0) =~= steps);
        assert(str_views(notes@) =~= Seq::<Seq<char>>::empty());
        assert(str_views(notes@) + notes_spec(steps) =~= notes_spec(steps));
    }
    let mut i: usize = 0;
    while i < recipe.steps.len()
        invariant
            0 <= i <= steps.len(),
            steps == recipe.steps@,
            pre == title_spec(*recipe, *cfg) + stats_spec(*recipe, *cfg) + summary_spec(
                *recipe,
                *cfg,
            ),
            dir_views(out@) + steps_spec(steps.skip(i as int), (i + 1) as nat, *cfg) == pre
                + steps_spec(steps, 1, *cfg),
            str_views(notes@) + notes_spec(steps.skip(i as int)) == notes_spec(steps),
        decreases steps.len() - i,
    {
        proof {
            assert(steps.skip(i as int)[0] == steps[i as int]);
            assert(steps.skip(i as int).drop_first() =~= steps.skip(i + 1));
        }
        let (mut sv, note) = step_block(&recipe.steps[i], i + 1, cfg);
        proof {
            assert(dir_views(out@ + sv@) =~= dir_views(out@) + dir_views(sv@));
            assert((dir_views(out@) + dir_views(sv@)) + steps_spec(
                steps.skip(i + 1),
                (i + 1) as nat + 1,
                *cfg,
            ) =~= dir_views(out@) + (dir_views(sv@) + steps_spec(
                steps.skip(i + 1),
                (i + 1) as nat + 1,
                *cfg,
            )));
        }
        out.append(&mut sv);
        match note {
            Option::Some(nt) => {
                proof {
                    assert(str_views(notes@.push(nt)) =~= str_views(notes@).push(nt@));
                    assert(str_views(notes@) + (seq![nt@] + notes_spec(steps.skip(i + 1))) =~= (
                    str_views(notes@) + seq![nt@]) + notes_spec(steps.skip(i + 1)));
                }
                notes.push(nt);
            },
            Option::None => {
                proof {
                    assert(Seq::<Seq<char>>::empty() + notes_spec(steps.skip(i + 1)) =~= notes_spec(
                        steps.skip(i + 1),
                    ));
                }
            },
        }
        i = i + 1;
    }
    proof {
        assert(steps.skip(i as int).len() == 0);
        assert(steps_spec(steps.skip(i as int), (i + 1) as nat, *cfg) =~= Seq::<
            DirectiveView,
        >::empty());
        assert(notes_spec(steps.skip(i as int)) =~= Seq::<Seq<char>>::empty());
        assert(dir_views(out@) + Seq::<DirectiveView>::empty() =~= dir_views(out@));
        assert(str_views(notes@) + Seq::<Seq<char>>::empty() =~= str_views(notes@));
    }
    let ghost mid = dir_views(out@);
    if cfg.qr {
        out.push(Directive::Align(JustifyMode::Center));
        let mut payload = cfg.instance.clone();
        payload.append("/recipe/");
        let idn = u64_dec_string(recipe.id as u64);
        payload.append(idn.as_str());
        out.push(Directive::QrCode(payload));
        out.push(Directive::Align(JustifyMode::Left));
    }
    out.push(Directive::Feed);
    match cfg.cut_mode {
        CutMode::NoCut => {},
        CutMode::Pause => {
            out.push(Directive::Pause);
        },
        CutMode::Partial => {
            out.push(Directive::PartialCut);
        },
        CutMode::Full => {
            out.push(Directive::FullCut);
        },
    }
    out.push(Directive::Print);
    proof {
        assert(dir_views(out@) =~= mid + tail_spec(*recipe, *cfg));
        assert(render_spec(*recipe, *cfg) =~= (pre + steps_spec(steps, 1, *cfg)) + tail_spec(
            *recipe,
            *cfg,
        ));
    }
    (out, notes)
}

} // verus!
