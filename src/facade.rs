use vstd::prelude::*;

use crate::config::{
    block, paths_view, parse_config, renderables_key, ConfigModel, GenErrorModel,
    GeneratorConfig, GeneratorError, PathModel, TypePath,
};
use crate::layout::{
    fresh_entry, key_at, keys_distinct, laid_out, lemma_block_accepts_complete,
};
use crate::naming::{attach_method_name, method_name_for};
use crate::token::Token;

verus! {

/// One generated fluent method: its name and the renderable type it takes.
pub struct AttachMethod {
    pub method: String,
    pub renderable: TypePath,
}

/// What the generator emits for a configuration block: a facade type named `name`
/// with a constructor, one attach method per renderable type in declared order,
/// `without`, `resize`, and a `render` that takes the camera type.
pub struct FacadePlan {
    pub name: String,
    pub attach: Vec<AttachMethod>,
    pub camera: TypePath,
}

pub struct FacadeModel {
    pub name: Seq<char>,
    pub attach: Seq<(Seq<char>, PathModel)>,
    pub camera: PathModel,
}

pub open spec fn attach_view(v: Seq<AttachMethod>) -> Seq<(Seq<char>, PathModel)> {
    v.map_values(|a: AttachMethod| (a.method@, a.renderable@))
}

impl View for FacadePlan {
    type V = FacadeModel;

    open spec fn view(&self) -> FacadeModel {
        FacadeModel { name: self.name@, attach: attach_view(self.attach@), camera: self.camera@ }
    }
}

/// The facade that a configuration describes.
pub open spec fn plan_of(c: ConfigModel) -> FacadeModel {
    FacadeModel {
        name: c.name,
        attach: c.renderables.map_values(|p: PathModel| (attach_method_name(p), p)),
        camera: c.camera,
    }
}

pub open spec fn new_name() -> Seq<char> {
    seq!['n', 'e', 'w']
}

pub open spec fn without_name() -> Seq<char> {
    seq!['w', 'i', 't', 'h', 'o', 'u', 't']
}

pub open spec fn resize_name() -> Seq<char> {
    seq!['r', 'e', 's', 'i', 'z', 'e']
}

pub open spec fn render_name() -> Seq<char> {
    seq!['r', 'e', 'n', 'd', 'e', 'r']
}

/// The public methods of a facade, in the order they are emitted.
pub open spec fn facade_methods(m: FacadeModel) -> Seq<Seq<char>> {
    seq![new_name()] + m.attach.map_values(|a: (Seq<char>, PathModel)| a.0) + seq![
        without_name(),
        resize_name(),
        render_name(),
    ]
}

/// A facade's methods are the constructor, one attach method per renderable type of its
/// configuration named after that type and in declared order, then `without`, `resize`
/// and `render`.
pub proof fn lemma_facade_methods(c: ConfigModel)
    ensures
        facade_methods(plan_of(c)) == seq![new_name()] + c.renderables.map_values(
            |p: PathModel| attach_method_name(p),
        ) + seq![without_name(), resize_name(), render_name()],
{
    assert(plan_of(c).attach.map_values(|a: (Seq<char>, PathModel)| a.0) =~= c.renderables.map_values(
        |p: PathModel| attach_method_name(p),
    ));
}

/// A configuration without renderable types gives a facade with only the constructor,
/// `without`, `resize` and `render`.
pub proof fn lemma_empty_renderables_facade(c: ConfigModel)
    requires
        c.renderables.len() == 0,
    ensures
        facade_methods(plan_of(c)) == seq![new_name(), without_name(), resize_name(), render_name()],
{
    assert(facade_methods(plan_of(c)) =~= seq![
        new_name(),
        without_name(),
        resize_name(),
        render_name(),
    ]);
}

/// A block of well-formed entries that name each of `name`, `renderables` and `camera`
/// once, in any order, yields a facade whose methods are the constructor, one attach
/// method per type of its `renderables` list (none for an empty list), named after that
/// type and in listed order, then `without`, `resize` and `render`.
pub proof fn lemma_complete_block_facade(t: Seq<Token>, starts: Seq<int>, r: int)
    requires
        laid_out(t, starts, 3),
        keys_distinct(t, starts, 3),
        starts[3] == t.len() - 1,
        0 <= r < 3,
        key_at(t, starts[r]) == renderables_key(),
    ensures
        block(t) matches Ok(c) && facade_methods(plan_of(c)) == seq![new_name()]
            + fresh_entry(t, starts[r])->Ok_0.0.renderables->Some_0.map_values(
            |p: PathModel| attach_method_name(p),
        ) + seq![without_name(), resize_name(), render_name()],
{
    lemma_block_accepts_complete(t, starts);
    let c = block(t)->Ok_0;
    assert(fresh_entry(t, starts[r])->Ok_0.0.renderables == Some(c.renderables));
    lemma_facade_methods(c);
}

/// The facade for a parsed configuration.
pub fn plan_facade(config: GeneratorConfig) -> (r: FacadePlan)
    ensures
        r@ == plan_of(config@),
{
    let GeneratorConfig { name, renderables, camera } = config;
    let ghost all = paths_view(renderables@);
    let mut rest = renderables;
    let mut attach: Vec<AttachMethod> = Vec::new();
    while rest.len() > 0
        invariant
            all == attach_view(attach@).map_values(|a: (Seq<char>, PathModel)| a.1) + paths_view(
                rest@,
            ),
            forall|j: int|
                0 <= j < attach@.len() ==> (#[trigger] attach@[j]).method@ == attach_method_name(
                    attach@[j].renderable@,
                ),
        decreases rest@.len(),
    {
        let ghost before = attach@;
        let ghost rest_before = rest@;
        let p = rest.remove(0);
        let method = method_name_for(&p);
        attach.push(AttachMethod { method, renderable: p });
        proof {
            assert(paths_view(rest_before) =~= seq![p@] + paths_view(rest@));
            assert(attach_view(attach@).map_values(|a: (Seq<char>, PathModel)| a.1) =~= attach_view(
                before,
            ).map_values(|a: (Seq<char>, PathModel)| a.1).push(p@));
        }
    }
    let r = FacadePlan { name, attach, camera };
    proof {
        assert(paths_view(rest@) =~= Seq::<PathModel>::empty());
        assert(attach_view(attach@).map_values(|a: (Seq<char>, PathModel)| a.1) =~= all);
        assert(r@.attach =~= plan_of(config@).attach);
    }
    r
}

/// Reads a configuration block and plans the facade it describes.
pub fn expand_macro(tokens: &Vec<Token>) -> (r: Result<FacadePlan, GeneratorError>)
    ensures
        match r {
            Ok(p) => block(tokens@) matches Ok(c) && p@ == plan_of(c),
            Err(x) => block(tokens@) == Err::<ConfigModel, GenErrorModel>(x@),
        },
{
    match parse_config(tokens) {
        Ok(c) => Ok(plan_facade(c)),
        Err(x) => Err(x),
    }
}

impl FacadePlan {
    /// The names of the facade's public methods, in the order they are emitted.
    pub fn method_names(&self) -> (r: Vec<String>)
        ensures
            r.deep_view() == facade_methods(self@),
    {
        proof {
            reveal_strlit("new");
            reveal_strlit("without");
            reveal_strlit("resize");
            reveal_strlit("render");
            assert("new"@ =~= new_name());
            assert("without"@ =~= without_name());
            assert("resize"@ =~= resize_name());
            assert("render"@ =~= render_name());
        }
        let mut names: Vec<String> = Vec::new();
        names.push(String::from_str("new"));
        let mut i: usize = 0;
        while i < self.attach.len()
            invariant
                i <= self.attach@.len(),
                names.deep_view() == seq![new_name()] + self@.attach.take(i as int).map_values(
                    |a: (Seq<char>, PathModel)| a.0,
                ),
            decreases self.attach@.len() - i,
        {
            let ghost before = names.deep_view();
            names.push(self.attach[i].method.clone());
            proof {
                assert(self@.attach.take(i + 1) =~= self@.attach.take(i as int).push(
                    self@.attach[i as int],
                ));
                assert(names.deep_view() =~= before.push(self.attach@[i as int].method@));
                assert(names.deep_view() =~= seq![new_name()] + self@.attach.take(
                    i + 1,
                ).map_values(|a: (Seq<char>, PathModel)| a.0));
            }
            i = i + 1;
        }
        let ghost mid = names.deep_view();
        names.push(String::from_str("without"));
        names.push(String::from_str("resize"));
        names.push(String::from_str("render"));
        proof {
            assert(self@.attach.take(i as int) =~= self@.attach);
            assert(names.deep_view() =~= facade_methods(self@));
        }
        names
    }
}

} // verus!
