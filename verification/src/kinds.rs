use vstd::prelude::*;

verus! {

/// The kind of a layer in the editor's layer tree.
#[derive(Clone, Copy, Debug, PartialEq, Eq, Structural, Hash)]
pub enum LayerType {
    Composition,
    Workstream,
    SpectrumCircle,
    SpectrumMountain,
    Particles,
    ParticleRings,
    Starfield,
    Tunnel,
    Kaleidoscope,
    Laser,
    Glitch,
    Text,
    Image,
    Video,
    Audio,
    Waveform,
    ChromaticAberration,
    ColorCorrection,
    FilmGrain,
    VhsEffect,
    GlitchPost,
    Sharpening,
    CameraShake,
}

/// The display label of each layer type.
pub open spec fn label_text(t: LayerType) -> Seq<char> {
    match t {
        LayerType::Composition => "Composition"@,
        LayerType::Workstream => "Workstream"@,
        LayerType::SpectrumCircle => "Spectrum Circle"@,
        LayerType::SpectrumMountain => "Spectrum Mountain"@,
        LayerType::Particles => "Particles"@,
        LayerType::ParticleRings => "Particle Rings"@,
        LayerType::Starfield => "Starfield"@,
        LayerType::Tunnel => "Tunnel"@,
        LayerType::Kaleidoscope => "Kaleidoscope"@,
        LayerType::Laser => "Laser"@,
        LayerType::Glitch => "Glitch"@,
        LayerType::Text => "Text"@,
        LayerType::Image => "Image"@,
        LayerType::Video => "Video"@,
        LayerType::Audio => "Audio"@,
        LayerType::Waveform => "Waveform"@,
        LayerType::ChromaticAberration => "Chromatic Aberration"@,
        LayerType::ColorCorrection => "Color Correction"@,
        LayerType::FilmGrain => "Film Grain"@,
        LayerType::VhsEffect => "VHS Effect"@,
        LayerType::GlitchPost => "Glitch Post"@,
        LayerType::Sharpening => "Sharpening"@,
        LayerType::CameraShake => "Camera Shake"@,
    }
}

/// The accent colour of each layer type.
pub open spec fn color_text(t: LayerType) -> Seq<char> {
    match t {
        LayerType::Composition => "#fbbf24"@,
        LayerType::Workstream => "#3b82f6"@,
        LayerType::SpectrumCircle => "#ec4899"@,
        LayerType::SpectrumMountain => "#8b5cf6"@,
        LayerType::Particles => "#eab308"@,
        LayerType::ParticleRings => "#06b6d4"@,
        LayerType::Starfield => "#ffffff"@,
        LayerType::Tunnel => "#a78bfa"@,
        LayerType::Kaleidoscope => "#ec4899"@,
        LayerType::Laser => "#ef4444"@,
        LayerType::Glitch => "#4ade80"@,
        LayerType::Text => "#22c55e"@,
        LayerType::Image => "#60a5fa"@,
        LayerType::Video => "#a855f7"@,
        LayerType::Audio => "#f97316"@,
        LayerType::Waveform => "#f97316"@,
        LayerType::ChromaticAberration => "#f43f5e"@,
        LayerType::ColorCorrection => "#0ea5e9"@,
        LayerType::FilmGrain => "#a8a29e"@,
        LayerType::VhsEffect => "#10b981"@,
        LayerType::GlitchPost => "#8b5cf6"@,
        LayerType::Sharpening => "#eab308"@,
        LayerType::CameraShake => "#ff6b6b"@,
    }
}

/// The icon of each layer type: groups, text and media have their own, post effects share a wand, any other effect a sparkle.
pub open spec fn icon_text(t: LayerType) -> Seq<char> {
    match t {
        LayerType::Composition => "📁"@,
        LayerType::Workstream => "🌊"@,
        LayerType::SpectrumCircle => "✨"@,
        LayerType::SpectrumMountain => "✨"@,
        LayerType::Particles => "✨"@,
        LayerType::ParticleRings => "✨"@,
        LayerType::Starfield => "✨"@,
        LayerType::Tunnel => "✨"@,
        LayerType::Kaleidoscope => "✨"@,
        LayerType::Laser => "✨"@,
        LayerType::Glitch => "✨"@,
        LayerType::Text => "T"@,
        LayerType::Image => "🖼"@,
        LayerType::Video => "🎬"@,
        LayerType::Audio => "🎵"@,
        LayerType::Waveform => "📊"@,
        LayerType::ChromaticAberration => "🪄"@,
        LayerType::ColorCorrection => "🪄"@,
        LayerType::FilmGrain => "🪄"@,
        LayerType::VhsEffect => "🪄"@,
        LayerType::GlitchPost => "🪄"@,
        LayerType::Sharpening => "🪄"@,
        LayerType::CameraShake => "📳"@,
    }
}

/// The one-line description of each layer type.
pub open spec fn description_text(t: LayerType) -> Seq<char> {
    match t {
        LayerType::Composition => "Group items into an isolated timeline."@,
        LayerType::Workstream => "Top-level grouping for related compositions and assets."@,
        LayerType::SpectrumCircle => "Circular audio visualizer reacting to frequencies."@,
        LayerType::SpectrumMountain => "Rolling landscape that bounces to music."@,
        LayerType::Particles => "Floating particles emitting from the center."@,
        LayerType::ParticleRings => "Concentric rings of pulsing glowing dots."@,
        LayerType::Starfield => "Infinite zooming stars."@,
        LayerType::Tunnel => "Neon geometric tunnel."@,
        LayerType::Kaleidoscope => "Mirrored kaleidoscopic fractal imagery."@,
        LayerType::Laser => "Sweeping laser beams."@,
        LayerType::Glitch => "Cyberpunk digital distortion layer."@,
        LayerType::Text => "Basic text overlay on the screen."@,
        LayerType::Image => "External image layer via URL or file."@,
        LayerType::Video => "External video playback layer."@,
        LayerType::Audio => "Background audio track."@,
        LayerType::Waveform => "2D scrolling audio waveform."@,
        LayerType::ChromaticAberration => "RGB edge splitting artifact effect."@,
        LayerType::ColorCorrection => "Color grading adjustments."@,
        LayerType::FilmGrain => "Cinematic noise grain overlay."@,
        LayerType::VhsEffect => "Retro CRT monitor scanlines effect."@,
        LayerType::GlitchPost => "Full-screen digital tearing."@,
        LayerType::Sharpening => "Contrast and detail enhancer."@,
        LayerType::CameraShake => "Trembling camera effect reactive to audio."@,
    }
}

impl LayerType {
    /// The display label of the layer type.
    pub fn label(&self) -> (r: &'static str)
        ensures
            r@ == label_text(*self),
    {
        match self {
            LayerType::Composition => "Composition",
            LayerType::Workstream => "Workstream",
            LayerType::SpectrumCircle => "Spectrum Circle",
            LayerType::SpectrumMountain => "Spectrum Mountain",
            LayerType::Particles => "Particles",
            LayerType::ParticleRings => "Particle Rings",
            LayerType::Starfield => "Starfield",
            LayerType::Tunnel => "Tunnel",
            LayerType::Kaleidoscope => "Kaleidoscope",
            LayerType::Laser => "Laser",
            LayerType::Glitch => "Glitch",
            LayerType::Text => "Text",
            LayerType::Image => "Image",
            LayerType::Video => "Video",
            LayerType::Audio => "Audio",
            LayerType::Waveform => "Waveform",
            LayerType::ChromaticAberration => "Chromatic Aberration",
            LayerType::ColorCorrection => "Color Correction",
            LayerType::FilmGrain => "Film Grain",
            LayerType::VhsEffect => "VHS Effect",
            LayerType::GlitchPost => "Glitch Post",
            LayerType::Sharpening => "Sharpening",
            LayerType::CameraShake => "Camera Shake",
        }
    }

    /// The accent colour of the layer type, as `#rrggbb`.
    pub fn color_hex(&self) -> (r: &'static str)
        ensures
            r@ == color_text(*self),
    {
        match self {
            LayerType::Composition => "#fbbf24",
            LayerType::Workstream => "#3b82f6",
            LayerType::SpectrumCircle => "#ec4899",
            LayerType::SpectrumMountain => "#8b5cf6",
            LayerType::Particles => "#eab308",
            LayerType::ParticleRings => "#06b6d4",
            LayerType::Starfield => "#ffffff",
            LayerType::Tunnel => "#a78bfa",
            LayerType::Kaleidoscope => "#ec4899",
            LayerType::Laser => "#ef4444",
            LayerType::Glitch => "#4ade80",
            LayerType::Text => "#22c55e",
            LayerType::Image => "#60a5fa",
            LayerType::Video => "#a855f7",
            LayerType::Audio => "#f97316",
            LayerType::Waveform => "#f97316",
            LayerType::ChromaticAberration => "#f43f5e",
            LayerType::ColorCorrection => "#0ea5e9",
            LayerType::FilmGrain => "#a8a29e",
            LayerType::VhsEffect => "#10b981",
            LayerType::GlitchPost => "#8b5cf6",
            LayerType::Sharpening => "#eab308",
            LayerType::CameraShake => "#ff6b6b",
        }
    }

    /// The icon of the layer type.
    pub fn icon(&self) -> (r: &'static str)
        ensures
            r@ == icon_text(*self),
    {
        match self {
            LayerType::Composition => "📁",
            LayerType::Workstream => "🌊",
            LayerType::SpectrumCircle => "✨",
            LayerType::SpectrumMountain => "✨",
            LayerType::Particles => "✨",
            LayerType::ParticleRings => "✨",
            LayerType::Starfield => "✨",
            LayerType::Tunnel => "✨",
            LayerType::Kaleidoscope => "✨",
            LayerType::Laser => "✨",
            LayerType::Glitch => "✨",
            LayerType::Text => "T",
            LayerType::Image => "🖼",
            LayerType::Video => "🎬",
            LayerType::Audio => "🎵",
            LayerType::Waveform => "📊",
            LayerType::ChromaticAberration => "🪄",
            LayerType::ColorCorrection => "🪄",
            LayerType::FilmGrain => "🪄",
            LayerType::VhsEffect => "🪄",
            LayerType::GlitchPost => "🪄",
            LayerType::Sharpening => "🪄",
            LayerType::CameraShake => "📳",
        }
    }

    /// A one-line description of the layer type.
    pub fn description(&self) -> (r: &'static str)
        ensures
            r@ == description_text(*self),
    {
        match self {
            LayerType::Composition => "Group items into an isolated timeline.",
            LayerType::Workstream => "Top-level grouping for related compositions and assets.",
            LayerType::SpectrumCircle => "Circular audio visualizer reacting to frequencies.",
            LayerType::SpectrumMountain => "Rolling landscape that bounces to music.",
            LayerType::Particles => "Floating particles emitting from the center.",
            LayerType::ParticleRings => "Concentric rings of pulsing glowing dots.",
            LayerType::Starfield => "Infinite zooming stars.",
            LayerType::Tunnel => "Neon geometric tunnel.",
            LayerType::Kaleidoscope => "Mirrored kaleidoscopic fractal imagery.",
            LayerType::Laser => "Sweeping laser beams.",
            LayerType::Glitch => "Cyberpunk digital distortion layer.",
            LayerType::Text => "Basic text overlay on the screen.",
            LayerType::Image => "External image layer via URL or file.",
            LayerType::Video => "External video playback layer.",
            LayerType::Audio => "Background audio track.",
            LayerType::Waveform => "2D scrolling audio waveform.",
            LayerType::ChromaticAberration => "RGB edge splitting artifact effect.",
            LayerType::ColorCorrection => "Color grading adjustments.",
            LayerType::FilmGrain => "Cinematic noise grain overlay.",
            LayerType::VhsEffect => "Retro CRT monitor scanlines effect.",
            LayerType::GlitchPost => "Full-screen digital tearing.",
            LayerType::Sharpening => "Contrast and detail enhancer.",
            LayerType::CameraShake => "Trembling camera effect reactive to audio.",
        }
    }

    /// The layer types offered by the editor's "add layer" dialog, in display order.
    pub fn addable_types() -> (r: &'static [LayerType])
        ensures
            r@ == addable_seq(),
    {
        &[
            LayerType::Image,
            LayerType::Video,
            LayerType::Audio,
            LayerType::SpectrumCircle,
            LayerType::SpectrumMountain,
            LayerType::Waveform,
            LayerType::Particles,
            LayerType::ParticleRings,
            LayerType::Starfield,
            LayerType::Tunnel,
            LayerType::Kaleidoscope,
            LayerType::Laser,
            LayerType::Glitch,
            LayerType::Text,
            LayerType::ChromaticAberration,
            LayerType::ColorCorrection,
            LayerType::FilmGrain,
            LayerType::VhsEffect,
            LayerType::GlitchPost,
            LayerType::Sharpening,
            LayerType::CameraShake,
        ]
    }
}

/// Every layer type but the two grouping kinds, in the order the "add layer" dialog lists them.
pub open spec fn addable_seq() -> Seq<LayerType> {
    seq![
        LayerType::Image,
        LayerType::Video,
        LayerType::Audio,
        LayerType::SpectrumCircle,
        LayerType::SpectrumMountain,
        LayerType::Waveform,
        LayerType::Particles,
        LayerType::ParticleRings,
        LayerType::Starfield,
        LayerType::Tunnel,
        LayerType::Kaleidoscope,
        LayerType::Laser,
        LayerType::Glitch,
        LayerType::Text,
        LayerType::ChromaticAberration,
        LayerType::ColorCorrection,
        LayerType::FilmGrain,
        LayerType::VhsEffect,
        LayerType::GlitchPost,
        LayerType::Sharpening,
        LayerType::CameraShake,
    ]
}

} // verus!

verus! {

/// Which frequency band of the audio a layer reacts to.
#[derive(Clone, Copy, Debug, PartialEq, Eq, Structural)]
pub enum AudioBand {
    /// No reaction to the audio.
    Off,
    Bass,
    Mid,
    Treble,
}

} // verus!
