//! The pattern framework: what a pattern is, and the catalogue of the built-in ones.

use vstd::prelude::*;

verus! {

/// A visual pattern: a named rule that moves particles.
///
/// A pattern may be added from outside: it says with `activated` and `moved` what its two
/// operations do, as loosely or as sharply as it likes, and promises nothing where it leaves
/// them out.
pub trait Pattern: Sized {
    /// What the pattern moves.
    type Particle;

    /// What the pattern reacts to in a frame.
    type Ctx;

    /// How activation may change the pattern and the particles.
    open spec fn activated(
        pre: Self,
        before: Seq<Self::Particle>,
        post: Self,
        after: Seq<Self::Particle>,
    ) -> bool {
        true
    }

    /// How one frame may change the pattern and one particle.
    open spec fn moved(
        pre: Self,
        before: Self::Particle,
        ctx: Self::Ctx,
        post: Self,
        after: Self::Particle,
    ) -> bool {
        true
    }

    /// The name that the pattern shows.
    fn name(&self) -> (r: &'static str);

    /// Anchors the particles when the pattern becomes the active one.
    fn on_activate(&mut self, particles: &mut [Self::Particle])
        ensures
            final(particles)@.len() == old(particles)@.len(),
            Self::activated(*old(self), old(particles)@, *final(self), final(particles)@),
    ;

    /// Moves one particle by one frame.
    fn update(&mut self, p: &mut Self::Particle, ctx: &Self::Ctx)
        ensures
            Self::moved(*old(self), *old(p), *ctx, *final(self), *final(p)),
    ;

    /// The half-extent of the world that the pattern fills, across and down, in hundredths of a
    /// unit.
    fn extent(&self) -> (r: (u32, u32))
        default_ensures
            r == (150u32, 150u32),
    {
        (150, 150)
    }
}

/// A pattern that moves nothing, for any kind of particle.
pub struct CustomPattern<Q, C> {
    pub particle: core::marker::PhantomData<Q>,
    pub ctx: core::marker::PhantomData<C>,
}

impl<Q, C> Pattern for CustomPattern<Q, C> {
    type Particle = Q;

    type Ctx = C;

    open spec fn activated(pre: Self, before: Seq<Q>, post: Self, after: Seq<Q>) -> bool {
        post == pre && after == before
    }

    open spec fn moved(pre: Self, before: Q, ctx: C, post: Self, after: Q) -> bool {
        post == pre && after == before
    }

    fn name(&self) -> (r: &'static str)
        ensures
            r@ == PatternKind::Custom.label(),
    {
        PatternKind::Custom.name()
    }

    fn on_activate(&mut self, particles: &mut [Q])
        ensures
            final(particles)@ == old(particles)@,
    {
    }

    fn update(&mut self, p: &mut Q, ctx: &C)
        ensures
            *final(p) == *old(p),
    {
    }
}

/// The patterns that come with the monitor.
#[derive(Clone, Copy, Debug, PartialEq, Eq, Structural)]
pub enum PatternKind {
    Vortex,
    Cylinder,
    OrbitCube,
    Head,
    ProcessCloud,
    Animation,
    HeatScale,
    Regions,
    Wavefield,
    SpiralGalaxy,
    GridWave,
    Chimera,
    ReactiveImage,
    Custom,
    ChipCore,
    ChipPulse,
    ChipOrbit,
    ChipGrid,
    ChipWave,
    ChipBreathe,
    ChipSpiral,
    ChipRings,
    ChipStorm,
    ChipMatrix,
}

impl PatternKind {
    /// The name that the pattern shows.
    pub open spec fn label(self) -> Seq<char> {
        match self {
            PatternKind::Vortex => "1. Vortex"@,
            PatternKind::Cylinder => "2. Cylinder"@,
            PatternKind::OrbitCube => "3. OrbitCube"@,
            PatternKind::Head => "4. Head"@,
            PatternKind::ProcessCloud => "5. ProcessCloud"@,
            PatternKind::Animation => "6. Animation"@,
            PatternKind::HeatScale => "7. HeatScale"@,
            PatternKind::Regions => "8. Regions"@,
            PatternKind::Wavefield => "9. Wavefield"@,
            PatternKind::SpiralGalaxy => "10. SpiralGalaxy"@,
            PatternKind::GridWave => "11. GridWave"@,
            PatternKind::Chimera => "12. Chimera"@,
            PatternKind::ReactiveImage => "13. ReactiveImage"@,
            PatternKind::Custom => "14. Custom"@,
            PatternKind::ChipCore => "1. ChipCore"@,
            PatternKind::ChipPulse => "2. ChipPulse"@,
            PatternKind::ChipOrbit => "3. ChipOrbit"@,
            PatternKind::ChipGrid => "4. ChipGrid"@,
            PatternKind::ChipWave => "5. ChipWave"@,
            PatternKind::ChipBreathe => "6. ChipBreathe"@,
            PatternKind::ChipSpiral => "7. ChipSpiral"@,
            PatternKind::ChipRings => "8. ChipRings"@,
            PatternKind::ChipStorm => "9. ChipStorm"@,
            PatternKind::ChipMatrix => "0. ChipMatrix"@,
        }
    }

    /// The half-extent of the world that the pattern fills, across and down, in hundredths of a
    /// unit.
    pub open spec fn half_extent(self) -> (u32, u32) {
        match self {
            PatternKind::Vortex => (170u32, 170u32),
            PatternKind::Cylinder | PatternKind::HeatScale => (135u32, 135u32),
            PatternKind::OrbitCube => (160u32, 160u32),
            PatternKind::Head | PatternKind::ChipSpiral => (120u32, 120u32),
            PatternKind::ProcessCloud => (105u32, 105u32),
            PatternKind::Animation => (190u32, 140u32),
            PatternKind::Regions
            | PatternKind::Wavefield
            | PatternKind::SpiralGalaxy
            | PatternKind::GridWave
            | PatternKind::Chimera
            | PatternKind::ReactiveImage
            | PatternKind::Custom => (150u32, 150u32),
            PatternKind::ChipCore
            | PatternKind::ChipPulse
            | PatternKind::ChipGrid
            | PatternKind::ChipWave
            | PatternKind::ChipMatrix => (100u32, 100u32),
            PatternKind::ChipOrbit | PatternKind::ChipRings => (130u32, 130u32),
            PatternKind::ChipBreathe => (110u32, 110u32),
            PatternKind::ChipStorm => (140u32, 140u32),
        }
    }

    /// The name that the pattern shows.
    pub fn name(&self) -> (r: &'static str)
        ensures
            r@ == self.label(),
    {
        match self {
            PatternKind::Vortex => "1. Vortex",
            PatternKind::Cylinder => "2. Cylinder",
            PatternKind::OrbitCube => "3. OrbitCube",
            PatternKind::Head => "4. Head",
            PatternKind::ProcessCloud => "5. ProcessCloud",
            PatternKind::Animation => "6. Animation",
            PatternKind::HeatScale => "7. HeatScale",
            PatternKind::Regions => "8. Regions",
            PatternKind::Wavefield => "9. Wavefield",
            PatternKind::SpiralGalaxy => "10. SpiralGalaxy",
            PatternKind::GridWave => "11. GridWave",
            PatternKind::Chimera => "12. Chimera",
            PatternKind::ReactiveImage => "13. ReactiveImage",
            PatternKind::Custom => "14. Custom",
            PatternKind::ChipCore => "1. ChipCore",
            PatternKind::ChipPulse => "2. ChipPulse",
            PatternKind::ChipOrbit => "3. ChipOrbit",
            PatternKind::ChipGrid => "4. ChipGrid",
            PatternKind::ChipWave => "5. ChipWave",
            PatternKind::ChipBreathe => "6. ChipBreathe",
            PatternKind::ChipSpiral => "7. ChipSpiral",
            PatternKind::ChipRings => "8. ChipRings",
            PatternKind::ChipStorm => "9. ChipStorm",
            PatternKind::ChipMatrix => "0. ChipMatrix",
        }
    }

    /// The half-extent of the world that the pattern fills, across and down, in hundredths of a
    /// unit: about the widest point that its particles reach.
    pub fn extent(&self) -> (r: (u32, u32))
        ensures
            r == self.half_extent(),
            r.0 > 0,
            r.1 > 0,
    {
        match self {
            PatternKind::Vortex => (170, 170),
            PatternKind::Cylinder | PatternKind::HeatScale => (135, 135),
            PatternKind::OrbitCube => (160, 160),
            PatternKind::Head | PatternKind::ChipSpiral => (120, 120),
            PatternKind::ProcessCloud => (105, 105),
            PatternKind::Animation => (190, 140),
            PatternKind::Regions
            | PatternKind::Wavefield
            | PatternKind::SpiralGalaxy
            | PatternKind::GridWave
            | PatternKind::Chimera
            | PatternKind::ReactiveImage
            | PatternKind::Custom => (150, 150),
            PatternKind::ChipCore
            | PatternKind::ChipPulse
            | PatternKind::ChipGrid
            | PatternKind::ChipWave
            | PatternKind::ChipMatrix => (100, 100),
            PatternKind::ChipOrbit | PatternKind::ChipRings => (130, 130),
            PatternKind::ChipBreathe => (110, 110),
            PatternKind::ChipStorm => (140, 140),
        }
    }
}

/// A pattern in a registry: one of the catalogue, which shows the name and fills the extent that
/// the catalogue gives it, or one that was added, which has its own.
pub struct Registered<V> {
    pub kind: Option<PatternKind>,
    pub pattern: V,
}

impl<V: Pattern> Pattern for Registered<V> {
    type Particle = V::Particle;

    type Ctx = V::Ctx;

    open spec fn activated(
        pre: Self,
        before: Seq<V::Particle>,
        post: Self,
        after: Seq<V::Particle>,
    ) -> bool {
        post.kind == pre.kind && V::activated(pre.pattern, before, post.pattern, after)
    }

    open spec fn moved(
        pre: Self,
        before: V::Particle,
        ctx: V::Ctx,
        post: Self,
        after: V::Particle,
    ) -> bool {
        post.kind == pre.kind && V::moved(pre.pattern, before, ctx, post.pattern, after)
    }

    fn name(&self) -> (r: &'static str)
        ensures
            match self.kind {
                Some(kind) => r@ == kind.label(),
                None => call_ensures(V::name, (&self.pattern,), r),
            },
    {
        match self.kind {
            Some(kind) => kind.name(),
            None => self.pattern.name(),
        }
    }

    fn on_activate(&mut self, particles: &mut [V::Particle])
        ensures
            final(self).kind == old(self).kind,
            V::activated(
                old(self).pattern,
                old(particles)@,
                final(self).pattern,
                final(particles)@,
            ),
    {
        self.pattern.on_activate(particles);
    }

    fn update(&mut self, p: &mut V::Particle, ctx: &V::Ctx)
        ensures
            final(self).kind == old(self).kind,
            V::moved(old(self).pattern, *old(p), *ctx, final(self).pattern, *final(p)),
    {
        self.pattern.update(p, ctx);
    }

    fn extent(&self) -> (r: (u32, u32))
        ensures
            match self.kind {
                Some(kind) => r == kind.half_extent(),
                None => call_ensures(V::extent, (&self.pattern,), r),
            },
    {
        match self.kind {
            Some(kind) => kind.extent(),
            None => self.pattern.extent(),
        }
    }
}

/// The patterns that the monitor starts with, in the order in which Tab goes through them.
pub open spec fn starting_kinds() -> Seq<PatternKind> {
    seq![
        PatternKind::ChipCore,
        PatternKind::ChipPulse,
        PatternKind::ChipOrbit,
        PatternKind::ChipGrid,
        PatternKind::ChipWave,
        PatternKind::ChipBreathe,
        PatternKind::ChipSpiral,
        PatternKind::ChipRings,
        PatternKind::ChipStorm,
        PatternKind::ChipMatrix,
        PatternKind::OrbitCube,
    ]
}

/// The patterns that the monitor starts with, in the order in which Tab goes through them.
pub fn default_patterns() -> (r: Vec<PatternKind>)
    ensures
        r@ == starting_kinds(),
{
    vec![
        PatternKind::ChipCore,
        PatternKind::ChipPulse,
        PatternKind::ChipOrbit,
        PatternKind::ChipGrid,
        PatternKind::ChipWave,
        PatternKind::ChipBreathe,
        PatternKind::ChipSpiral,
        PatternKind::ChipRings,
        PatternKind::ChipStorm,
        PatternKind::ChipMatrix,
        PatternKind::OrbitCube,
    ]
}

/// No two patterns of the catalogue show the same name.
pub proof fn law_names_are_unique(a: PatternKind, b: PatternKind)
    ensures
        a.label() == b.label() <==> a == b,
{
    reveal_strlit("1. Vortex");
    reveal_strlit("2. Cylinder");
    reveal_strlit("3. OrbitCube");
    reveal_strlit("4. Head");
    reveal_strlit("5. ProcessCloud");
    reveal_strlit("6. Animation");
    reveal_strlit("7. HeatScale");
    reveal_strlit("8. Regions");
    reveal_strlit("9. Wavefield");
    reveal_strlit("10. SpiralGalaxy");
    reveal_strlit("11. GridWave");
    reveal_strlit("12. Chimera");
    reveal_strlit("13. ReactiveImage");
    reveal_strlit("14. Custom");
    reveal_strlit("1. ChipCore");
    reveal_strlit("2. ChipPulse");
    reveal_strlit("3. ChipOrbit");
    reveal_strlit("4. ChipGrid");
    reveal_strlit("5. ChipWave");
    reveal_strlit("6. ChipBreathe");
    reveal_strlit("7. ChipSpiral");
    reveal_strlit("8. ChipRings");
    reveal_strlit("9. ChipStorm");
    reveal_strlit("0. ChipMatrix");
    let x = a.label();
    let y = b.label();
    if x == y {
        assert(x.len() == y.len() && x[0] == y[0] && x[3] == y[3] && x[4] == y[4] && x[7] == y[7]);
    }
}

/// A pattern in a registry is activated and moves particles as the pattern itself does, and keeps
/// its kind.
pub proof fn law_registered_pattern_does_its_own<V: Pattern>(
    pre: Registered<V>,
    before: Seq<V::Particle>,
    post: Registered<V>,
    after: Seq<V::Particle>,
    p: V::Particle,
    ctx: V::Ctx,
    q: V::Particle,
)
    ensures
        Registered::<V>::activated(pre, before, post, after) <==> V::activated(
            pre.pattern,
            before,
            post.pattern,
            after,
        ) && post.kind == pre.kind,
        Registered::<V>::moved(pre, p, ctx, post, q) <==> V::moved(
            pre.pattern,
            p,
            ctx,
            post.pattern,
            q,
        ) && post.kind == pre.kind,
{
}

/// The custom pattern anchors and moves nothing.
pub proof fn law_custom_pattern_changes_nothing<Q, C>(
    pre: CustomPattern<Q, C>,
    before: Seq<Q>,
    post: CustomPattern<Q, C>,
    after: Seq<Q>,
    p: Q,
    ctx: C,
    q: Q,
)
    ensures
        CustomPattern::<Q, C>::activated(pre, before, post, after) ==> after == before && post
            == pre,
        CustomPattern::<Q, C>::moved(pre, p, ctx, post, q) ==> q == p && post == pre,
{
}

} // verus!
