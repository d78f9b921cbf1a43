use hotline::suffix::suffix_type_creator;

const UNKNOWN: [u8; 8] = *b"TEXTR*ch";

#[test]
fn known_extensions() {
    assert_eq!(&suffix_type_creator(b"photo.jpg"), b"JPEGGKON");
    assert_eq!(&suffix_type_creator(b"photo.jpeg"), b"JPEGGKON");
    assert_eq!(&suffix_type_creator(b"a.png"), b"PNGfGKON");
    assert_eq!(&suffix_type_creator(b"a.gif"), b"GIFfGKON");
    assert_eq!(&suffix_type_creator(b"song.mp3"), b"MP3 MAmp");
    assert_eq!(&suffix_type_creator(b"song.mp2"), b"MP3 MAmp");
    assert_eq!(&suffix_type_creator(b"clip.mpg"), b"MPEGTVOD");
    assert_eq!(&suffix_type_creator(b"clip.mpeg"), b"MPEGTVOD");
    assert_eq!(&suffix_type_creator(b"clip.mov"), b"MooVTVOD");
    assert_eq!(&suffix_type_creator(b"arc.sit"), b"SITDSIT!");
    assert_eq!(&suffix_type_creator(b"arc.zip"), b"ZIP ZIP ");
    assert_eq!(&suffix_type_creator(b"q3.pk3"), b"ZIP ZIP ");
    assert_eq!(&suffix_type_creator(b"prog.app"), b"APPLpeff");
    assert_eq!(&suffix_type_creator(b"prog.sea"), b"APPLpeff");
    assert_eq!(&suffix_type_creator(b"disk.img"), b"rohdWrap");
    assert_eq!(&suffix_type_creator(b"art.pict"), b"PICTGKON");
}

#[test]
fn unknown_and_edge_cases() {
    assert_eq!(suffix_type_creator(b"README"), UNKNOWN);
    assert_eq!(suffix_type_creator(b"file.xyz"), UNKNOWN);
    assert_eq!(suffix_type_creator(b"trailing."), UNKNOWN);
    assert_eq!(suffix_type_creator(b"JPG.JPG"), UNKNOWN);
    assert_eq!(&suffix_type_creator(b"a.tar.gif"), b"GIFfGKON");
    assert_eq!(&suffix_type_creator(b".png"), b"PNGfGKON");
}
