# jpegxl_decode

Verified building blocks of a JPEG XL decoder, written in Verus.

`src/` holds the bit reader, the codestream headers (`SizeHeader`,
the full `ImageMetadata` bundle with `BitDepth`, `ColourEncoding`,
`ToneMapping`, `OpsinInverseMatrix`, extensions, animation and preview
headers), the Modular mode (MA trees, predictors, channel decoding,
self-correcting predictor, inverse squeeze / RCT / palette transforms,
pass-group decoding), the VarDCT non-zero bookkeeping, coefficient
contexts and per-pass histogram routing, the patch dictionary structure, orientation, and the noise
generators. Entropy-coded integers are supplied by the caller through
closures, so every decision taken on them is verified. `F16()` values
are kept as their binary16 bit patterns.

`app/` adapts the library to the codec framework: error conversion,
orientation of framework frames, per-thread hooks and traces, and the
floating-point views of the bundles.
